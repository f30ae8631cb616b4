//! A stand-in Centauri Carbon 2 for tests and local development: the printer's topic protocol,
//! the stock firmware's `PUT /upload` endpoint, and an MJPEG camera.
//!
//! It models the documented protocol, not the real firmware, so passing against it proves the
//! client follows the documentation and nothing more.

use vstd::prelude::*;

use crate::decimal::Decimal;
use crate::json::{self, Json, Value};
use crate::num;
use crate::text;

verus! {

pub const USERNAME: &'static str = "elegoo";

/// Temperatures are in tenths of a degree.
pub const AMBIENT: i64 = 250;

pub const NOZZLE_TARGET: i64 = 2100;

pub const BED_TARGET: i64 = 600;

pub const SIMULATED_LAYERS: u64 = 150;

#[derive(Debug, Clone, PartialEq, Eq)]
pub struct Options {
    pub serial: String,
    pub password: String,
}

impl Default for Options {
    fn default() -> (r: Options)
        ensures
            r.serial@ == "FAKECC2SN0001"@,
            r.password@ == "123456"@,
    {
        Options { serial: "FAKECC2SN0001".to_string(), password: "123456".to_string() }
    }
}

/// A file that was uploaded whole.
#[derive(Debug, Clone, PartialEq, Eq)]
pub struct Upload {
    pub filename: String,
    pub md5_header: Option<String>,
    pub bytes: Vec<u8>,
}

/// A file of which only the first bytes are there.
#[derive(Debug, PartialEq, Eq)]
pub struct PartialUpload {
    pub filename: String,
    pub md5_header: Option<String>,
    pub bytes: Vec<u8>,
}

#[derive(Debug, PartialEq, Eq)]
pub struct StoredFile {
    pub name: String,
    pub bytes: Vec<u8>,
}

/// A heater, in tenths of a degree. A target of 0 is off.
#[derive(Debug, Clone, Copy, PartialEq, Eq, Structural)]
pub struct Heat {
    pub temperature: i64,
    pub target: i64,
}

/// What the machine does.
#[derive(Debug, Clone, Copy, PartialEq, Eq, Structural)]
pub struct Machine {
    pub status: i64,
    pub sub_status: i64,
    pub progress: i64,
    pub sequence: u64,
    pub task_counter: u64,
    pub led: i64,
    pub extruder: Heat,
    pub heater_bed: Heat,
    /// Seconds a simulated print has run, not counting pauses.
    pub elapsed: u64,
}

#[derive(Debug, PartialEq, Eq)]
pub struct FakePrinter {
    pub serial: String,
    pub password: String,
    pub machine: Machine,
    pub filename: String,
    pub uuid: String,
    pub trays: Vec<Json>,
    pub files: Vec<StoredFile>,
    pub partial_uploads: Vec<PartialUpload>,
    pub uploads: Vec<Upload>,
    /// `params` of every accepted `START_PRINT`.
    pub started: Vec<Json>,
    /// Finished prints, newest last, as method 1036 reports them.
    pub history: Vec<Json>,
    pub registration_reply: String,
    pub answer_pings: bool,
    pub requests_seen: Vec<u32>,
}

/// Something to publish, under a topic of the printer.
#[derive(Debug, PartialEq, Eq)]
pub struct Message {
    /// What follows `elegoo/` and the serial number.
    pub suffix: String,
    pub payload: Json,
}

// ---------------------------------------------------------------------------------------------
// Upload headers
// ---------------------------------------------------------------------------------------------

/// The first and last byte of a range and the length of the file.
pub open spec fn content_range(raw: Seq<char>) -> Option<(nat, nat, nat)> {
    if !text::starts_with(raw, "bytes "@) {
        None
    } else {
        match text::split_once(raw.skip(6), '/') {
            None => None,
            Some((range, total)) => match text::split_once(range, '-') {
                None => None,
                Some((start, end)) => match (
                    text::parsed_unsigned(start, u64::MAX as nat),
                    text::parsed_unsigned(end, u64::MAX as nat),
                    text::parsed_unsigned(total, u64::MAX as nat),
                ) {
                    (Some(start), Some(end), Some(total)) => if start <= end < total {
                        Some((start, end, total))
                    } else {
                        None
                    },
                    _ => None,
                },
            },
        }
    }
}

pub fn parse_content_range(raw: &str) -> (r: Option<(u64, u64, u64)>)
    ensures
        match r {
            Some((start, end, total)) => content_range(raw@) == Some(
                (start as nat, end as nat, total as nat),
            ) && start <= end < total,
            None => content_range(raw@) is None,
        },
{
    let chars = text::chars(raw);
    let prefix = text::chars("bytes ");
    proof {
        reveal_strlit("bytes ");
    }
    if !text::has_prefix(chars.as_slice(), prefix.as_slice()) {
        return None;
    }
    let rest = vstd::slice::slice_subrange(chars.as_slice(), 6, chars.len());
    assert(rest@ =~= raw@.skip(6));
    let (range, total) = match text::split_at_char(rest, '/') {
        Some(parts) => parts,
        None => {
            return None;
        },
    };
    let (start, end) = match text::split_at_char(range, '-') {
        Some(parts) => parts,
        None => {
            return None;
        },
    };
    let start = match text::parse_unsigned(start, u64::MAX) {
        Some(start) => start,
        None => {
            return None;
        },
    };
    let end = match text::parse_unsigned(end, u64::MAX) {
        Some(end) => end,
        None => {
            return None;
        },
    };
    let total = match text::parse_unsigned(total, u64::MAX) {
        Some(total) => total,
        None => {
            return None;
        },
    };
    if start <= end && end < total {
        Some((start, end, total))
    } else {
        None
    }
}

/// The printer reads the range that an upload sends.
pub proof fn upload_ranges_read_back(chunk: crate::cc2::upload::Chunk, total: nat)
    requires
        chunk.offset <= chunk.end < total <= u64::MAX,
    ensures
        content_range(crate::cc2::upload::range_text(chunk, total)) == Some(
            (chunk.offset as nat, chunk.end as nat, total),
        ),
{
    reveal_strlit("bytes ");
    reveal_strlit("-");
    reveal_strlit("/");
    let start = text::decimal(chunk.offset as nat);
    let end = text::decimal(chunk.end as nat);
    let whole = text::decimal(total);
    text::lemma_decimal(chunk.offset as nat);
    text::lemma_decimal(chunk.end as nat);
    text::lemma_decimal(total);
    text::lemma_decimal_reads_back(chunk.offset as nat, u64::MAX as nat);
    text::lemma_decimal_reads_back(chunk.end as nat, u64::MAX as nat);
    text::lemma_decimal_reads_back(total, u64::MAX as nat);
    let raw = crate::cc2::upload::range_text(chunk, total);
    assert(raw.take(6) =~= "bytes "@);
    let rest = raw.skip(6);
    let range = start + "-"@ + end;
    assert(rest =~= range + "/"@ + whole);
    assert(range[start.len() as int] == '-');
    assert(rest[range.len() as int] == '/');
    assert forall|k: int| 0 <= k < range.len() implies rest[k] != '/' by {
        assert(rest[k] == range[k]);
        if k < start.len() {
            assert(range[k] == start[k] && text::is_digit(start[k]));
        } else if k > start.len() {
            assert(range[k] == end[k - start.len() - 1] && text::is_digit(end[k - start.len() - 1]));
        }
    }
    text::lemma_find_is(rest, '/', 0, range.len() as int);
    assert(rest.take(range.len() as int) =~= range);
    assert(rest.skip(range.len() as int + 1) =~= whole);
    assert forall|k: int| 0 <= k < start.len() implies range[k] != '-' by {
        assert(range[k] == start[k] && text::is_digit(start[k]));
    }
    text::lemma_find_is(range, '-', 0, start.len() as int);
    assert(range.take(start.len() as int) =~= start);
    assert(range.skip(start.len() as int + 1) =~= end);
}

// ---------------------------------------------------------------------------------------------
// The machine
// ---------------------------------------------------------------------------------------------

/// Where a heater is a second later: a fifth of the way to its target, or back to ambient when
/// off.
pub open spec fn approached(temperature: int, target: int) -> int {
    let goal = if target > 0 {
        target
    } else {
        AMBIENT as int
    };
    let fifths = 4 * temperature + goal;
    if -25 < 5 * goal - fifths < 25 {
        goal
    } else {
        num::rounded(fifths, 5)
    }
}

/// One second of a heater moving a fifth of the way to its target, or back to ambient when off.
pub fn approach(temperature: i64, target: i64) -> (r: Heat)
    requires
        -1_000_000_000 <= temperature <= 1_000_000_000,
        target <= 1_000_000_000,
    ensures
        r.temperature == approached(temperature as int, target as int),
        r.target == target,
        -1_000_000_000 <= r.temperature <= 1_000_000_000,
{
    let goal: i64 = if target > 0 {
        target
    } else {
        AMBIENT
    };
    let fifths: i64 = 4 * temperature + goal;
    let left: i64 = 5 * goal - fifths;
    if -25 < left && left < 25 {
        Heat { temperature: goal, target }
    } else {
        let next: i128 = num::round_div(fifths as i128, 5);
        Heat { temperature: next as i64, target }
    }
}

/// A heater never overshoots: each second brings it nearer to where it is going, until it is
/// there.
pub proof fn heaters_settle(temperature: int, target: int)
    ensures
        ({
            let goal = if target > 0 {
                target
            } else {
                AMBIENT as int
            };
            let next = approached(temperature, target);
            &&& temperature <= goal ==> temperature <= next <= goal
            &&& temperature >= goal ==> goal <= next <= temperature
            &&& temperature != goal ==> next != temperature
        }),
{
    let goal = if target > 0 {
        target
    } else {
        AMBIENT as int
    };
    let fifths = 4 * temperature + goal;
    let near = num::rounded(fifths, 5);
    if fifths >= 0 {
        assert(near == (2 * fifths + 5) / 10);
        assert(5 * near - 2 <= fifths <= 5 * near + 2);
    } else {
        assert(near == -((-2 * fifths + 5) / 10));
        assert(5 * near - 2 <= fifths <= 5 * near + 2);
    }
}

impl Machine {
    /// Zero unless a print is being simulated.
    pub open spec fn current_layer(self) -> int {
        if self.status == 2 && self.elapsed > 0 {
            let done = if self.progress < 0 {
                0
            } else if self.progress > 100 {
                100
            } else {
                self.progress as int
            };
            let layer = done * SIMULATED_LAYERS / 100;
            if layer < 1 {
                1
            } else {
                layer
            }
        } else {
            0
        }
    }

    /// Zero unless a print is being simulated.
    pub fn layer(&self) -> (r: u64)
        ensures
            r == self.current_layer(),
            r <= SIMULATED_LAYERS,
    {
        if self.status == 2 && self.elapsed > 0 {
            let done: u64 = if self.progress < 0 {
                0
            } else if self.progress > 100 {
                100
            } else {
                self.progress as u64
            };
            let layer: u64 = done * SIMULATED_LAYERS / 100;
            if layer < 1 {
                1
            } else {
                layer
            }
        } else {
            0
        }
    }

    pub open spec fn heaters_in_range(self) -> bool {
        &&& -1_000_000_000 <= self.extruder.temperature <= 1_000_000_000
        &&& -1_000_000_000 <= self.heater_bed.temperature <= 1_000_000_000
    }
}

// ---------------------------------------------------------------------------------------------
// What it says
// ---------------------------------------------------------------------------------------------

pub open spec fn error_value(code: int) -> Value {
    json::single("error_code"@, json::whole(code))
}

fn error_result(code: i64) -> (r: Json)
    ensures
        r.value() == error_value(code as int),
{
    json::single_object("error_code", json::whole_number(code))
}

pub open spec fn tray_value(tray_id: nat, filament_type: Seq<char>, color: Seq<char>, status: int) -> Value {
    Value::Object(
        seq![
            ("tray_id"@, json::whole(tray_id as int)),
            (
                "brand"@,
                Value::Text(
                    if status == 0 {
                        ""@
                    } else {
                        "ELEGOO"@
                    },
                ),
            ),
            ("filament_type"@, Value::Text(filament_type)),
            ("filament_name"@, Value::Text(filament_type)),
            ("filament_color"@, Value::Text(color)),
            ("min_nozzle_temp"@, json::whole(190)),
            ("max_nozzle_temp"@, json::whole(230)),
            ("status"@, json::whole(status)),
        ],
    )
}

fn tray(tray_id: usize, filament_type: &str, color: &str, status: i64) -> (r: Json)
    ensures
        r.value() == tray_value(tray_id as nat, filament_type@, color@, status as int),
{
    let mut m: Vec<(String, Json)> = Vec::new();
    json::put(&mut m, "tray_id", Json::Unsigned(tray_id as u64));
    json::put_text(
        &mut m,
        "brand",
        if status == 0 {
            ""
        } else {
            "ELEGOO"
        },
    );
    json::put_text(&mut m, "filament_type", filament_type);
    json::put_text(&mut m, "filament_name", filament_type);
    json::put_text(&mut m, "filament_color", color);
    json::put(&mut m, "min_nozzle_temp", Json::Unsigned(190));
    json::put(&mut m, "max_nozzle_temp", Json::Unsigned(230));
    json::put(&mut m, "status", json::whole_number(status));
    let r = Json::Object(m);
    assert(r.value()->Object_0 =~= tray_value(
        tray_id as nat,
        filament_type@,
        color@,
        status as int,
    )->Object_0);
    r
}

/// A number of tenths.
pub open spec fn in_tenths(n: i64) -> Decimal {
    Decimal { negative: n < 0, digits: num::size(n as int) as u64, power: -1i16 }
}

fn from_tenths(n: i64) -> (r: Decimal)
    ensures
        r == in_tenths(n),
{
    Decimal { power: -1, ..Decimal::from_whole(n) }
}

pub open spec fn heat_value(heat: Heat) -> Value {
    Value::Object(
        seq![
            ("temperature"@, Value::Real(in_tenths(heat.temperature))),
            ("target"@, Value::Real(in_tenths(heat.target))),
        ],
    )
}

fn heater(heat: Heat) -> (r: Json)
    ensures
        r.value() == heat_value(heat),
{
    let mut m: Vec<(String, Json)> = Vec::new();
    json::put(&mut m, "temperature", Json::Real(from_tenths(heat.temperature)));
    json::put(&mut m, "target", Json::Real(from_tenths(heat.target)));
    let r = Json::Object(m);
    assert(r.value()->Object_0 =~= heat_value(heat)->Object_0);
    r
}

pub open spec fn machine_value(machine: Machine) -> Value {
    Value::Object(
        seq![
            ("status"@, json::whole(machine.status as int)),
            ("sub_status"@, json::whole(machine.sub_status as int)),
            ("exception_status"@, Value::List(seq![])),
            ("progress"@, json::whole(machine.progress as int)),
        ],
    )
}

pub open spec fn print_value(machine: Machine, filename: Seq<char>, uuid: Seq<char>) -> Value {
    Value::Object(
        seq![
            ("filename"@, Value::Text(filename)),
            ("uuid"@, Value::Text(uuid)),
            ("current_layer"@, json::whole(machine.current_layer())),
            (
                "total_layer"@,
                json::whole(
                    if machine.current_layer() > 0 {
                        SIMULATED_LAYERS as int
                    } else {
                        0
                    },
                ),
            ),
            ("print_duration"@, json::whole(machine.elapsed as int)),
            ("total_duration"@, json::whole(machine.elapsed as int)),
            ("remaining_time_sec"@, json::whole(0)),
            ("progress"@, json::whole(machine.progress as int)),
            (
                "state"@,
                Value::Text(
                    if machine.status == 2 {
                        "printing"@
                    } else {
                        "standby"@
                    },
                ),
            ),
        ],
    )
}

pub open spec fn device_value() -> Value {
    Value::Object(
        seq![
            ("camera"@, Value::Bool(true)),
            ("u_disk"@, Value::Bool(false)),
            ("type"@, Value::Text("0303"@)),
        ],
    )
}

pub open spec fn status_value(machine: Machine, filename: Seq<char>, uuid: Seq<char>) -> Value {
    Value::Object(
        seq![
            ("sequence"@, json::whole(machine.sequence as int)),
            ("machine_status"@, machine_value(machine)),
            ("print_status"@, print_value(machine, filename, uuid)),
            ("extruder"@, heat_value(machine.extruder)),
            ("heater_bed"@, heat_value(machine.heater_bed)),
            ("external_device"@, device_value()),
            ("led"@, json::single("status"@, json::whole(machine.led as int))),
        ],
    )
}

fn machine_status(machine: &Machine) -> (r: Json)
    ensures
        r.value() == machine_value(*machine),
{
    let mut m: Vec<(String, Json)> = Vec::new();
    json::put(&mut m, "status", json::whole_number(machine.status));
    json::put(&mut m, "sub_status", json::whole_number(machine.sub_status));
    let none = Json::List(Vec::new());
    assert(none.value()->List_0 =~= seq![]);
    json::put(&mut m, "exception_status", none);
    json::put(&mut m, "progress", json::whole_number(machine.progress));
    let r = Json::Object(m);
    assert(r.value()->Object_0 =~= machine_value(*machine)->Object_0);
    r
}

fn print_status(machine: &Machine, filename: &str, uuid: &str) -> (r: Json)
    ensures
        r.value() == print_value(*machine, filename@, uuid@),
{
    let layer: u64 = machine.layer();
    let mut m: Vec<(String, Json)> = Vec::new();
    json::put_text(&mut m, "filename", filename);
    json::put_text(&mut m, "uuid", uuid);
    json::put(&mut m, "current_layer", Json::Unsigned(layer));
    json::put(
        &mut m,
        "total_layer",
        Json::Unsigned(
            if layer > 0 {
                SIMULATED_LAYERS
            } else {
                0
            },
        ),
    );
    json::put(&mut m, "print_duration", Json::Unsigned(machine.elapsed));
    json::put(&mut m, "total_duration", Json::Unsigned(machine.elapsed));
    json::put(&mut m, "remaining_time_sec", Json::Unsigned(0));
    json::put(&mut m, "progress", json::whole_number(machine.progress));
    json::put_text(
        &mut m,
        "state",
        if machine.status == 2 {
            "printing"
        } else {
            "standby"
        },
    );
    let r = Json::Object(m);
    assert(r.value()->Object_0 =~= print_value(*machine, filename@, uuid@)->Object_0);
    r
}

fn external_device() -> (r: Json)
    ensures
        r.value() == device_value(),
{
    let mut m: Vec<(String, Json)> = Vec::new();
    json::put(&mut m, "camera", Json::Bool(true));
    json::put(&mut m, "u_disk", Json::Bool(false));
    json::put_text(&mut m, "type", "0303");
    let r = Json::Object(m);
    assert(r.value()->Object_0 =~= device_value()->Object_0);
    r
}

impl FakePrinter {
    /// Heaters stay where a reading in thousandths of a degree can be written down.
    pub open spec fn well_formed(self) -> bool {
        &&& self.machine.heaters_in_range()
        &&& -1_000_000_000 <= self.machine.extruder.target <= 1_000_000_000
        &&& -1_000_000_000 <= self.machine.heater_bed.target <= 1_000_000_000
    }

    fn status_members(&self) -> (r: Vec<(String, Json)>)
        requires
            self.well_formed(),
        ensures
            Value::Object(json::members_value(r@)) == status_value(
                self.machine,
                self.filename@,
                self.uuid@,
            ),
    {
        let mut m: Vec<(String, Json)> = Vec::new();
        json::put(&mut m, "sequence", Json::Unsigned(self.machine.sequence));
        json::put(&mut m, "machine_status", machine_status(&self.machine));
        json::put(
            &mut m,
            "print_status",
            print_status(&self.machine, self.filename.as_str(), self.uuid.as_str()),
        );
        json::put(&mut m, "extruder", heater(self.machine.extruder));
        json::put(&mut m, "heater_bed", heater(self.machine.heater_bed));
        json::put(&mut m, "external_device", external_device());
        json::put(
            &mut m,
            "led",
            json::single_object("status", json::whole_number(self.machine.led)),
        );
        assert(json::members_value(m@) =~= status_value(
            self.machine,
            self.filename@,
            self.uuid@,
        )->Object_0);
        m
    }

    pub fn full_status(&self) -> (r: Json)
        requires
            self.well_formed(),
        ensures
            r.value() == status_value(self.machine, self.filename@, self.uuid@),
    {
        Json::Object(self.status_members())
    }
}

// ---------------------------------------------------------------------------------------------
// Files
// ---------------------------------------------------------------------------------------------

/// The first file from position `i` on with the given name, or the number of files.
pub open spec fn file_at(files: Seq<StoredFile>, name: Seq<char>, i: int) -> int
    decreases files.len() - i,
{
    if i >= files.len() {
        files.len() as int
    } else if files[i].name@ == name {
        i
    } else {
        file_at(files, name, i + 1)
    }
}

/// What is stored under a name.
pub open spec fn stored(files: Seq<StoredFile>, name: Seq<char>) -> Option<Seq<u8>> {
    let i = file_at(files, name, 0);
    if i < files.len() {
        Some(files[i].bytes@)
    } else {
        None
    }
}

proof fn lemma_file_at(files: Seq<StoredFile>, name: Seq<char>, i: int)
    requires
        0 <= i <= files.len(),
    ensures
        i <= file_at(files, name, i) <= files.len(),
        file_at(files, name, i) < files.len() ==> files[file_at(files, name, i)].name@ == name,
        forall|k: int| i <= k < file_at(files, name, i) ==> (#[trigger] files[k]).name@ != name,
    decreases files.len() - i,
{
    if i < files.len() && files[i].name@ != name {
        lemma_file_at(files, name, i + 1);
    }
}

proof fn lemma_file_at_is(files: Seq<StoredFile>, name: Seq<char>, i: int, at: int)
    requires
        0 <= i <= at <= files.len(),
        at < files.len() ==> files[at].name@ == name,
        forall|k: int| i <= k < at ==> (#[trigger] files[k]).name@ != name,
    ensures
        file_at(files, name, i) == at,
    decreases at - i,
{
    if i < at {
        lemma_file_at_is(files, name, i + 1, at);
    }
}

fn find_file(files: &Vec<StoredFile>, name: &str) -> (r: usize)
    ensures
        r == file_at(files@, name@, 0),
        r <= files@.len(),
{
    let mut i: usize = 0;
    while i < files.len()
        invariant
            i <= files@.len(),
            forall|k: int| 0 <= k < i ==> (#[trigger] files@[k]).name@ != name@,
        decreases files.len() - i,
    {
        if text::same(files[i].name.as_str(), name) {
            proof {
                lemma_file_at_is(files@, name@, 0, i as int);
            }
            return i;
        }
        i += 1;
    }
    proof {
        lemma_file_at_is(files@, name@, 0, i as int);
    }
    i
}

fn bytes_clone(bytes: &Vec<u8>) -> (r: Vec<u8>)
    ensures
        r@ == bytes@,
{
    let mut out: Vec<u8> = Vec::new();
    let mut i: usize = 0;
    while i < bytes.len()
        invariant
            i <= bytes@.len(),
            out@ == bytes@.take(i as int),
        decreases bytes.len() - i,
    {
        out.push(bytes[i]);
        i += 1;
        assert(out@ =~= bytes@.take(i as int));
    }
    assert(bytes@.take(i as int) =~= bytes@);
    out
}

/// Stores bytes under a name, in place of what was there.
fn store(files: &mut Vec<StoredFile>, name: &str, bytes: Vec<u8>)
    ensures
        forall|other: Seq<char>| #[trigger]
            stored(final(files)@, other) == if other == name@ {
                Some(bytes@)
            } else {
                stored(old(files)@, other)
            },
        ({
            let i = file_at(old(files)@, name@, 0);
            if i < old(files)@.len() {
                &&& final(files)@.len() == old(files)@.len()
                &&& final(files)@[i].name@ == name@
                &&& final(files)@[i].bytes@ == bytes@
                &&& forall|k: int|
                    0 <= k < final(files)@.len() && k != i ==> #[trigger] final(files)@[k] == old(
                        files,
                    )@[k]
            } else {
                &&& final(files)@.len() == old(files)@.len() + 1
                &&& final(files)@.last().name@ == name@
                &&& final(files)@.last().bytes@ == bytes@
                &&& final(files)@.drop_last() == old(files)@
            }
        }),
{
    let i = find_file(files, name);
    let ghost before = files@;
    proof {
        lemma_file_at(before, name@, 0);
    }
    if i < files.len() {
        files[i].bytes = bytes;
        assert forall|other: Seq<char>| #[trigger]
            stored(files@, other) == if other == name@ {
                Some(bytes@)
            } else {
                stored(before, other)
            } by {
            let at = file_at(before, other, 0);
            lemma_file_at(before, other, 0);
            assert forall|k: int| 0 <= k < before.len() implies (#[trigger] files@[k]).name@
                == before[k].name@ by {}
            lemma_file_at_is(files@, other, 0, at);
        }
    } else {
        files.push(StoredFile { name: name.to_string(), bytes });
        assert(files@.drop_last() =~= before);
        assert forall|other: Seq<char>| #[trigger]
            stored(files@, other) == if other == name@ {
                Some(bytes@)
            } else {
                stored(before, other)
            } by {
            let at = file_at(before, other, 0);
            lemma_file_at(before, other, 0);
            assert forall|k: int| 0 <= k < before.len() implies #[trigger] files@[k] == before[k] by {
                assert(files@.drop_last()[k] == files@[k]);
            }
            if other == name@ {
                lemma_file_at_is(files@, other, 0, before.len() as int);
            } else if at < before.len() {
                lemma_file_at_is(files@, other, 0, at);
            } else {
                lemma_file_at_is(files@, other, 0, files@.len() as int);
            }
        }
    }
}

// ---------------------------------------------------------------------------------------------
// Commands
// ---------------------------------------------------------------------------------------------

pub open spec fn attributes_value(serial: Seq<char>) -> Value {
    Value::Object(
        seq![
            ("error_code"@, json::whole(0)),
            ("hostname"@, Value::Text("Fake Carbon 2"@)),
            ("machine_model"@, Value::Text("Centauri Carbon 2"@)),
            ("sn"@, Value::Text(serial)),
            ("software_version"@, json::single("ota_version"@, Value::Text("0.0.0-fake"@))),
            ("camera_connected"@, Value::Bool(true)),
            ("max_video_connections"@, json::whole(1)),
            ("video_connections"@, json::whole(0)),
        ],
    )
}

fn attributes_result(serial: &str) -> (r: Json)
    ensures
        r.value() == attributes_value(serial@),
{
    let mut m: Vec<(String, Json)> = Vec::new();
    json::put(&mut m, "error_code", Json::Unsigned(0));
    json::put_text(&mut m, "hostname", "Fake Carbon 2");
    json::put_text(&mut m, "machine_model", "Centauri Carbon 2");
    json::put_text(&mut m, "sn", serial);
    json::put(
        &mut m,
        "software_version",
        json::single_object("ota_version", Json::Text("0.0.0-fake".to_string())),
    );
    json::put(&mut m, "camera_connected", Json::Bool(true));
    json::put(&mut m, "max_video_connections", Json::Unsigned(1));
    json::put(&mut m, "video_connections", Json::Unsigned(0));
    let r = Json::Object(m);
    assert(r.value()->Object_0 =~= attributes_value(serial@)->Object_0);
    r
}

pub open spec fn canvas_value(trays: Seq<Value>) -> Value {
    Value::Object(
        seq![
            ("error_code"@, json::whole(0)),
            (
                "canvas_info"@,
                Value::Object(
                    seq![
                        ("active_canvas_id"@, json::whole(0)),
                        ("active_tray_id"@, json::whole(-1)),
                        ("auto_refill"@, Value::Bool(false)),
                        (
                            "canvas_list"@,
                            Value::List(
                                seq![
                                    Value::Object(
                                        seq![
                                            ("canvas_id"@, json::whole(0)),
                                            ("connected"@, json::whole(1)),
                                            ("tray_list"@, Value::List(trays)),
                                        ],
                                    ),
                                ],
                            ),
                        ),
                    ],
                ),
            ),
        ],
    )
}

fn canvas_result(trays: &Vec<Json>) -> (r: Json)
    ensures
        r.value() == canvas_value(json::items_value(trays@)),
{
    let ghost shown = canvas_value(json::items_value(trays@))->Object_0;
    let ghost info = shown[1].1->Object_0;
    let ghost list = info[3].1->List_0;
    let mut canvas: Vec<(String, Json)> = Vec::new();
    json::put(&mut canvas, "canvas_id", Json::Unsigned(0));
    json::put(&mut canvas, "connected", Json::Unsigned(1));
    json::put(&mut canvas, "tray_list", Json::List(json::duplicate_list(trays)));
    assert(json::members_value(canvas@) =~= list[0]->Object_0);
    let mut canvases: Vec<Json> = Vec::new();
    canvases.push(Json::Object(canvas));
    proof {
        json::lemma_items_value(canvases@);
        assert(canvases@[0].value() == list[0]);
        assert(json::items_value(canvases@) =~= list);
    }
    let mut m: Vec<(String, Json)> = Vec::new();
    json::put(&mut m, "active_canvas_id", Json::Unsigned(0));
    json::put(&mut m, "active_tray_id", Json::Negative(-1));
    json::put(&mut m, "auto_refill", Json::Bool(false));
    json::put(&mut m, "canvas_list", Json::List(canvases));
    assert(json::members_value(m@) =~= info);
    let mut all: Vec<(String, Json)> = Vec::new();
    json::put(&mut all, "error_code", Json::Unsigned(0));
    json::put(&mut all, "canvas_info", Json::Object(m));
    assert(json::members_value(all@) =~= shown);
    Json::Object(all)
}

pub open spec fn history_value(tasks: Seq<Value>) -> Value {
    Value::Object(
        seq![
            ("error_code"@, json::whole(0)),
            ("history_task_list"@, Value::List(tasks.reverse())),
        ],
    )
}

fn history_result(history: &Vec<Json>) -> (r: Json)
    ensures
        r.value() == history_value(json::items_value(history@)),
{
    let mut tasks: Vec<Json> = Vec::new();
    let mut i: usize = history.len();
    proof {
        json::lemma_items_value(history@);
        json::lemma_items_value(tasks@);
    }
    while i > 0
        invariant
            i <= history@.len(),
            tasks@.len() == history@.len() - i,
            forall|k: int|
                0 <= k < tasks@.len() ==> (#[trigger] tasks@[k]).value() == history@[history@.len()
                    - 1 - k].value(),
        decreases i,
    {
        i -= 1;
        tasks.push(history[i].duplicate());
    }
    proof {
        json::lemma_items_value(history@);
        json::lemma_items_value(tasks@);
        assert(json::items_value(tasks@) =~= json::items_value(history@).reverse());
    }
    let mut m: Vec<(String, Json)> = Vec::new();
    json::put(&mut m, "error_code", Json::Unsigned(0));
    json::put(&mut m, "history_task_list", Json::List(tasks));
    assert(json::members_value(m@) =~= history_value(json::items_value(history@))->Object_0);
    Json::Object(m)
}

pub open spec fn listed_file(file: StoredFile) -> Value {
    Value::Object(
        seq![("name"@, Value::Text(file.name@)), ("size"@, json::whole(file.bytes@.len() as int))],
    )
}

/// The files in the order they were stored.
pub open spec fn files_value(files: Seq<StoredFile>) -> Value {
    Value::Object(
        seq![
            ("error_code"@, json::whole(0)),
            ("total"@, json::whole(files.len() as int)),
            ("files"@, Value::List(files.map_values(|file: StoredFile| listed_file(file)))),
        ],
    )
}

fn files_result(files: &Vec<StoredFile>) -> (r: Json)
    ensures
        r.value() == files_value(files@),
{
    let mut list: Vec<Json> = Vec::new();
    let mut i: usize = 0;
    while i < files.len()
        invariant
            i <= files@.len(),
            list@.len() == i,
            forall|k: int| 0 <= k < i ==> (#[trigger] list@[k]).value() == listed_file(files@[k]),
        decreases files.len() - i,
    {
        let mut m: Vec<(String, Json)> = Vec::new();
        json::put_text(&mut m, "name", files[i].name.as_str());
        json::put(&mut m, "size", Json::Unsigned(files[i].bytes.len() as u64));
        assert(json::members_value(m@) =~= listed_file(files@[i as int])->Object_0);
        list.push(Json::Object(m));
        i += 1;
    }
    proof {
        json::lemma_items_value(list@);
        assert(json::items_value(list@) =~= files@.map_values(
            |file: StoredFile| listed_file(file),
        ));
    }
    let mut m: Vec<(String, Json)> = Vec::new();
    json::put(&mut m, "error_code", Json::Unsigned(0));
    json::put(&mut m, "total", Json::Unsigned(files.len() as u64));
    json::put(&mut m, "files", Json::List(list));
    assert(json::members_value(m@) =~= files_value(files@)->Object_0);
    Json::Object(m)
}

pub open spec fn color_value() -> Value {
    Value::Object(
        seq![
            ("color"@, Value::Text("#FFFFFF"@)),
            ("name"@, Value::Text("PLA"@)),
            ("t"@, json::whole(0)),
        ],
    )
}

pub open spec fn detail_value(filename: Seq<char>, size: int) -> Value {
    Value::Object(
        seq![
            ("error_code"@, json::whole(0)),
            ("filename"@, Value::Text(filename)),
            ("size"@, json::whole(size)),
            ("TotalLayers"@, json::whole(10)),
            ("layer"@, json::whole(10)),
            ("print_time"@, json::whole(600)),
            ("total_filament_used"@, Value::Real(in_tenths(15))),
            ("color_map"@, Value::List(seq![color_value()])),
        ],
    )
}

fn detail_result(filename: &str, size: usize) -> (r: Json)
    ensures
        r.value() == detail_value(filename@, size as int),
{
    let mut c: Vec<(String, Json)> = Vec::new();
    json::put_text(&mut c, "color", "#FFFFFF");
    json::put_text(&mut c, "name", "PLA");
    json::put(&mut c, "t", Json::Unsigned(0));
    assert(json::members_value(c@) =~= color_value()->Object_0);
    let mut colors: Vec<Json> = Vec::new();
    colors.push(Json::Object(c));
    proof {
        json::lemma_items_value(colors@);
        assert(colors@[0].value() == color_value());
        assert(json::items_value(colors@) =~= seq![color_value()]);
    }
    let mut m: Vec<(String, Json)> = Vec::new();
    json::put(&mut m, "error_code", Json::Unsigned(0));
    json::put_text(&mut m, "filename", filename);
    json::put(&mut m, "size", Json::Unsigned(size as u64));
    json::put(&mut m, "TotalLayers", Json::Unsigned(10));
    json::put(&mut m, "layer", Json::Unsigned(10));
    json::put(&mut m, "print_time", Json::Unsigned(600));
    json::put(&mut m, "total_filament_used", Json::Real(from_tenths(15)));
    json::put(&mut m, "color_map", Json::List(colors));
    assert(json::members_value(m@) =~= detail_value(filename@, size as int)->Object_0);
    Json::Object(m)
}

/// What the parameters say under a key, if it is text.
pub open spec fn text_in(params: Value, key: Seq<char>) -> Seq<char> {
    match params.get(key) {
        Some(Value::Text(s)) => s,
        _ => ""@,
    }
}

fn find_text(params: &Json, key: &str) -> (r: String)
    ensures
        r@ == text_in(params.value(), key@),
{
    match params.get(key) {
        Some(value) => match value.as_str() {
            Some(s) => s.to_string(),
            None => "".to_string(),
        },
        None => "".to_string(),
    }
}

pub open spec fn number_in(params: Value, key: Seq<char>) -> i64 {
    match params.get(key) {
        Some(value) => match json::number_i64(value) {
            Some(n) => n,
            None => 0,
        },
        None => 0,
    }
}

fn find_number(params: &Json, key: &str) -> (r: i64)
    ensures
        r == number_in(params.value(), key@),
{
    match params.get(key) {
        Some(value) => match value.as_i64() {
            Some(n) => n,
            None => 0,
        },
        None => 0,
    }
}

pub open spec fn task_name(counter: int) -> Seq<char> {
    "fake-task-"@ + text::decimal(counter as nat)
}

pub open spec fn started_delta(filename: Seq<char>, uuid: Seq<char>) -> Value {
    Value::Object(
        seq![
            (
                "machine_status"@,
                Value::Object(
                    seq![
                        ("status"@, json::whole(2)),
                        ("sub_status"@, json::whole(2075)),
                        ("progress"@, json::whole(0)),
                    ],
                ),
            ),
            (
                "print_status"@,
                Value::Object(
                    seq![
                        ("filename"@, Value::Text(filename)),
                        ("uuid"@, Value::Text(uuid)),
                        ("progress"@, json::whole(0)),
                        ("state"@, Value::Text("printing"@)),
                    ],
                ),
            ),
        ],
    )
}

fn start_delta(filename: &str, uuid: &str) -> (r: Json)
    ensures
        r.value() == started_delta(filename@, uuid@),
{
    let ghost shown = started_delta(filename@, uuid@)->Object_0;
    let mut a: Vec<(String, Json)> = Vec::new();
    json::put(&mut a, "status", Json::Unsigned(2));
    json::put(&mut a, "sub_status", Json::Unsigned(2075));
    json::put(&mut a, "progress", Json::Unsigned(0));
    assert(json::members_value(a@) =~= shown[0].1->Object_0);
    let mut b: Vec<(String, Json)> = Vec::new();
    json::put_text(&mut b, "filename", filename);
    json::put_text(&mut b, "uuid", uuid);
    json::put(&mut b, "progress", Json::Unsigned(0));
    json::put_text(&mut b, "state", "printing");
    assert(json::members_value(b@) =~= shown[1].1->Object_0);
    let mut m: Vec<(String, Json)> = Vec::new();
    json::put(&mut m, "machine_status", Json::Object(a));
    json::put(&mut m, "print_status", Json::Object(b));
    assert(json::members_value(m@) =~= shown);
    Json::Object(m)
}

/// The change that a pause, a resume or a stop reports.
pub open spec fn moved_delta(status: Option<int>, sub_status: int, state: Seq<char>) -> Value {
    Value::Object(
        seq![
            (
                "machine_status"@,
                Value::Object(
                    match status {
                        Some(status) => seq![
                            ("status"@, json::whole(status)),
                            ("sub_status"@, json::whole(sub_status)),
                        ],
                        None => seq![("sub_status"@, json::whole(sub_status))],
                    },
                ),
            ),
            ("print_status"@, json::single("state"@, Value::Text(state))),
        ],
    )
}

fn move_delta(status: Option<i64>, sub_status: i64, state: &str) -> (r: Json)
    ensures
        r.value() == moved_delta(
            match status {
                Some(status) => Some(status as int),
                None => None,
            },
            sub_status as int,
            state@,
        ),
{
    let ghost shown = moved_delta(
        match status {
            Some(status) => Some(status as int),
            None => None,
        },
        sub_status as int,
        state@,
    )->Object_0;
    let mut a: Vec<(String, Json)> = Vec::new();
    if let Some(status) = status {
        json::put(&mut a, "status", json::whole_number(status));
    }
    json::put(&mut a, "sub_status", json::whole_number(sub_status));
    assert(json::members_value(a@) =~= shown[0].1->Object_0);
    let mut m: Vec<(String, Json)> = Vec::new();
    json::put(&mut m, "machine_status", Json::Object(a));
    json::put(
        &mut m,
        "print_status",
        json::single_object("state", Json::Text(state.to_string())),
    );
    assert(json::members_value(m@) =~= shown);
    Json::Object(m)
}

/// A status without its number and with the note that the command went well.
pub open spec fn answered_status(machine: Machine, filename: Seq<char>, uuid: Seq<char>) -> Value {
    Value::Object(
        status_value(machine, filename, uuid)->Object_0.push(("error_code"@, json::whole(0))),
    )
}

impl FakePrinter {
    /// A start is taken when the machine is idle and has the file.
    pub open spec fn takes_start(self, params: Value) -> bool {
        self.machine.status == 1 && stored(self.files@, text_in(params, "filename"@)) is Some
    }

    /// A pause, resume or stop is taken while printing.
    pub open spec fn is_printing(self) -> bool {
        self.machine.status == 2
    }

    /// What a command answers, and the change it reports.
    pub open spec fn answers(self, method: u32, params: Value) -> (Value, Option<Value>) {
        let filename = text_in(params, "filename"@);
        if method == 1001 {
            (attributes_value(self.serial@), None)
        } else if method == 1002 {
            (answered_status(self.machine, self.filename@, self.uuid@), None)
        } else if method == 2005 {
            (canvas_value(json::items_value(self.trays@)), None)
        } else if method == 1036 {
            (history_value(json::items_value(self.history@)), None)
        } else if method == 1044 {
            (files_value(self.files@), None)
        } else if method == 1046 {
            match stored(self.files@, filename) {
                Some(bytes) => (detail_value(filename, bytes.len() as int), None),
                None => (error_value(1021), None),
            }
        } else if method == 1020 {
            if self.machine.status != 1 {
                (error_value(1009), None)
            } else if stored(self.files@, filename) is None {
                (error_value(1021), None)
            } else {
                (
                    error_value(0),
                    Some(started_delta(filename, task_name(self.machine.task_counter + 1))),
                )
            }
        } else if method == 1021 && self.is_printing() {
            (error_value(0), Some(moved_delta(None, 2502, "paused"@)))
        } else if method == 1023 && self.is_printing() {
            (error_value(0), Some(moved_delta(None, 2075, "printing"@)))
        } else if method == 1022 && self.is_printing() {
            (error_value(0), Some(moved_delta(Some(1), 2504, "cancelled"@)))
        } else if 1021 <= method <= 1023 {
            (error_value(1010), None)
        } else if method == 1029 {
            (
                error_value(0),
                Some(
                    json::single(
                        "led"@,
                        json::single(
                            "status"@,
                            json::whole(number_in(params, "power"@) as int),
                        ),
                    ),
                ),
            )
        } else if method == 1042 {
            (error_value(0), None)
        } else {
            (error_value(1001), None)
        }
    }

    /// The machine after a command.
    pub open spec fn machine_after(self, method: u32, params: Value) -> Machine {
        if method == 1020 && self.takes_start(params) {
            Machine {
                task_counter: (self.machine.task_counter + 1) as u64,
                status: 2,
                sub_status: 2075,
                progress: 0,
                elapsed: 0,
                ..self.machine
            }
        } else if method == 1021 && self.is_printing() {
            Machine { sub_status: 2502, ..self.machine }
        } else if method == 1023 && self.is_printing() {
            Machine { sub_status: 2075, ..self.machine }
        } else if method == 1022 && self.is_printing() {
            Machine { status: 1, sub_status: 2504, ..self.machine }
        } else if method == 1029 {
            Machine { led: number_in(params, "power"@), ..self.machine }
        } else {
            self.machine
        }
    }

    /// Everything that no command changes is as in `old`.
    pub open spec fn same_store(self, old: FakePrinter) -> bool {
        &&& self.serial == old.serial
        &&& self.password == old.password
        &&& self.trays == old.trays
        &&& self.files == old.files
        &&& self.partial_uploads == old.partial_uploads
        &&& self.uploads == old.uploads
        &&& self.history == old.history
        &&& self.registration_reply == old.registration_reply
        &&& self.answer_pings == old.answer_pings
    }

    /// Starts the print of a file that is there.
    fn start_print(&mut self, filename: &str, params: &Json) -> (r: (Json, Option<Json>))
        requires
            old(self).machine.status == 1,
            old(self).takes_start(params.value()),
            filename@ == text_in(params.value(), "filename"@),
            old(self).machine.task_counter < u64::MAX,
        ensures
            final(self).same_store(*old(self)),
            final(self).requests_seen == old(self).requests_seen,
            final(self).machine == old(self).machine_after(1020, params.value()),
            final(self).filename@ == filename@,
            final(self).uuid@ == task_name(old(self).machine.task_counter + 1),
            json::items_value(final(self).started@) == json::items_value(
                old(self).started@,
            ).push(params.value()),
            r.0.value() == error_value(0),
            r.1 matches Some(delta) && delta.value() == started_delta(
                filename@,
                task_name(old(self).machine.task_counter + 1),
            ),
    {
        let counter: u64 = self.machine.task_counter + 1;
        self.machine.task_counter = counter;
        self.machine.status = 2;
        self.machine.sub_status = 2075;
        self.machine.progress = 0;
        self.machine.elapsed = 0;
        self.filename = filename.to_string();
        let mut uuid = String::new();
        uuid.append("fake-task-");
        text::push_decimal(&mut uuid, counter);
        assert(uuid@ =~= task_name(counter as int));
        let delta = start_delta(filename, uuid.as_str());
        self.uuid = uuid;
        let ghost before = self.started@;
        self.started.push(params.duplicate());
        assert(self.started@.drop_last() =~= before);
        (error_result(0), Some(delta))
    }

    /// Returns the response `result` and, for commands that change state, a status delta.
    pub fn execute(&mut self, method: u32, params: &Json) -> (r: (Json, Option<Json>))
        requires
            old(self).well_formed(),
            method == 1020 ==> old(self).machine.task_counter < u64::MAX,
        ensures
            final(self).well_formed(),
            final(self).same_store(*old(self)),
            final(self).requests_seen@ == old(self).requests_seen@.push(method),
            r.0.value() == old(self).answers(method, params.value()).0,
            match r.1 {
                Some(delta) => old(self).answers(method, params.value()).1 == Some(delta.value()),
                None => old(self).answers(method, params.value()).1 is None,
            },
            final(self).machine == old(self).machine_after(method, params.value()),
            if method == 1020 && old(self).takes_start(params.value()) {
                &&& final(self).filename@ == text_in(params.value(), "filename"@)
                &&& final(self).uuid@ == task_name(old(self).machine.task_counter + 1)
                &&& json::items_value(final(self).started@) == json::items_value(
                    old(self).started@,
                ).push(params.value())
            } else {
                &&& final(self).filename == old(self).filename
                &&& final(self).uuid == old(self).uuid
                &&& final(self).started == old(self).started
            },
    {
        self.requests_seen.push(method);
        let filename = find_text(params, "filename");
        if method == 1001 {
            (attributes_result(self.serial.as_str()), None)
        } else if method == 1002 {
            let mut members = self.status_members();
            json::put(&mut members, "error_code", Json::Unsigned(0));
            (Json::Object(members), None)
        } else if method == 2005 {
            (canvas_result(&self.trays), None)
        } else if method == 1036 {
            (history_result(&self.history), None)
        } else if method == 1044 {
            (files_result(&self.files), None)
        } else if method == 1046 {
            let i = find_file(&self.files, filename.as_str());
            if i < self.files.len() {
                (detail_result(filename.as_str(), self.files[i].bytes.len()), None)
            } else {
                (error_result(1021), None)
            }
        } else if method == 1020 {
            if self.machine.status != 1 {
                return (error_result(1009), None);
            }
            let i = find_file(&self.files, filename.as_str());
            if i >= self.files.len() {
                return (error_result(1021), None);
            }
            self.start_print(filename.as_str(), params)
        } else if method == 1021 && self.machine.status == 2 {
            self.machine.sub_status = 2502;
            (error_result(0), Some(move_delta(None, 2502, "paused")))
        } else if method == 1023 && self.machine.status == 2 {
            self.machine.sub_status = 2075;
            (error_result(0), Some(move_delta(None, 2075, "printing")))
        } else if method == 1022 && self.machine.status == 2 {
            self.machine.status = 1;
            self.machine.sub_status = 2504;
            (error_result(0), Some(move_delta(Some(1), 2504, "cancelled")))
        } else if 1021 <= method && method <= 1023 {
            (error_result(1010), None)
        } else if method == 1029 {
            let led: i64 = find_number(params, "power");
            self.machine.led = led;
            (
                error_result(0),
                Some(
                    json::single_object(
                        "led",
                        json::single_object("status", json::whole_number(led)),
                    ),
                ),
            )
        } else if method == 1042 {
            (error_result(0), None)
        } else {
            (error_result(1001), None)
        }
    }
}

/// A printer prints one thing at a time: while it prints, another start is refused.
pub proof fn a_busy_printer_refuses_a_start(printer: FakePrinter, params: Value)
    requires
        printer.machine.status != 1,
    ensures
        printer.answers(1020, params) == (error_value(1009), None::<Value>),
        printer.machine_after(1020, params) == printer.machine,
{
}

/// A resumed print goes on as it was: pausing and resuming leaves the machine as before.
pub proof fn resuming_undoes_a_pause(printer: FakePrinter, paused: FakePrinter, params: Value)
    requires
        printer.machine.status == 2,
        printer.machine.sub_status == 2075,
        paused.machine == printer.machine_after(1021, params),
    ensures
        paused.machine_after(1023, params) == printer.machine,
{
}

// ---------------------------------------------------------------------------------------------
// Status events
// ---------------------------------------------------------------------------------------------

/// A status event with the changes in `delta`.
pub open spec fn event_value(delta: Seq<(Seq<char>, Value)>, sequence: int) -> Value {
    Value::Object(
        seq![
            ("id"@, json::whole(sequence)),
            ("method"@, json::whole(6000)),
            ("result"@, Value::Object(delta.push(("sequence"@, json::whole(sequence))))),
        ],
    )
}

pub open spec fn idle_delta() -> Seq<(Seq<char>, Value)> {
    seq![
        (
            "machine_status"@,
            Value::Object(
                seq![
                    ("status"@, json::whole(1)),
                    ("sub_status"@, json::whole(0)),
                    ("progress"@, json::whole(0)),
                ],
            ),
        ),
        (
            "print_status"@,
            Value::Object(
                seq![
                    ("filename"@, Value::Text(""@)),
                    ("uuid"@, Value::Text(""@)),
                    ("progress"@, json::whole(0)),
                    ("state"@, Value::Text("standby"@)),
                ],
            ),
        ),
    ]
}

pub open spec fn progress_delta(progress: int) -> Seq<(Seq<char>, Value)> {
    seq![
        ("machine_status"@, json::single("progress"@, json::whole(progress))),
        ("print_status"@, json::single("progress"@, json::whole(progress))),
    ]
}

/// A finished print, as the history has it.
pub open spec fn task_value(uuid: Seq<char>, filename: Seq<char>, counter: int) -> Value {
    Value::Object(
        seq![
            ("task_id"@, Value::Text(uuid)),
            ("task_name"@, Value::Text(filename)),
            ("task_status"@, json::whole(1)),
            ("begin_time"@, json::whole(0)),
            ("end_time"@, json::whole(counter)),
        ],
    )
}

/// The machine a second later, of a print that takes `total` seconds.
pub open spec fn second_later(machine: Machine, total: u64) -> Machine {
    let printing = machine.status == 2;
    let extruder = Heat {
        temperature: approached(
            machine.extruder.temperature as int,
            if printing {
                NOZZLE_TARGET as int
            } else {
                0
            },
        ) as i64,
        target: if printing {
            NOZZLE_TARGET
        } else {
            0
        },
    };
    let heater_bed = Heat {
        temperature: approached(
            machine.heater_bed.temperature as int,
            if printing {
                BED_TARGET as int
            } else {
                0
            },
        ) as i64,
        target: if printing {
            BED_TARGET
        } else {
            0
        },
    };
    if printing && machine.sub_status == 2075 {
        Machine {
            extruder,
            heater_bed,
            elapsed: (machine.elapsed + 1) as u64,
            progress: progress_at(machine.elapsed + 1, total as int) as i64,
            ..machine
        }
    } else {
        Machine { extruder, heater_bed, ..machine }
    }
}

/// How much of a print is done, in percent.
pub open spec fn progress_at(elapsed: int, total: int) -> int {
    let percent = elapsed * 100 / total;
    if percent <= i64::MAX {
        percent
    } else {
        100
    }
}

/// What a second changed.
pub open spec fn second_delta(before: Machine, after: Machine, total: u64) -> Seq<(Seq<char>, Value)> {
    let heaters = if before.extruder != after.extruder || before.heater_bed != after.heater_bed {
        seq![
            ("extruder"@, heat_value(after.extruder)),
            ("heater_bed"@, heat_value(after.heater_bed)),
        ]
    } else {
        seq![]
    };
    let print = if before.status == 2 && before.sub_status == 2075 {
        seq![
            ("machine_status"@, json::single("progress"@, json::whole(after.progress as int))),
            ("print_status"@, running_value(after, total)),
        ]
    } else {
        seq![]
    };
    heaters + print
}

pub open spec fn running_value(machine: Machine, total: u64) -> Value {
    Value::Object(
        seq![
            ("progress"@, json::whole(machine.progress as int)),
            ("current_layer"@, json::whole(machine.current_layer())),
            ("total_layer"@, json::whole(SIMULATED_LAYERS as int)),
            ("print_duration"@, json::whole(machine.elapsed as int)),
            ("total_duration"@, json::whole(machine.elapsed as int)),
            (
                "remaining_time_sec"@,
                json::whole(
                    if total > machine.elapsed {
                        total - machine.elapsed
                    } else {
                        0
                    },
                ),
            ),
        ],
    )
}

fn running(machine: &Machine, total: u64) -> (r: Json)
    ensures
        r.value() == running_value(*machine, total),
{
    let mut m: Vec<(String, Json)> = Vec::new();
    json::put(&mut m, "progress", json::whole_number(machine.progress));
    json::put(&mut m, "current_layer", Json::Unsigned(machine.layer()));
    json::put(&mut m, "total_layer", Json::Unsigned(SIMULATED_LAYERS));
    json::put(&mut m, "print_duration", Json::Unsigned(machine.elapsed));
    json::put(&mut m, "total_duration", Json::Unsigned(machine.elapsed));
    json::put(
        &mut m,
        "remaining_time_sec",
        Json::Unsigned(
            if total > machine.elapsed {
                total - machine.elapsed
            } else {
                0
            },
        ),
    );
    assert(json::members_value(m@) =~= running_value(*machine, total)->Object_0);
    Json::Object(m)
}

impl FakePrinter {
    /// An idle printer with white and black PLA, red PETG and an empty tray.
    pub fn new(options: Options) -> (r: FakePrinter)
        ensures
            r.well_formed(),
            r.serial == options.serial,
            r.password == options.password,
            r.machine == (Machine {
                status: 1,
                sub_status: 0,
                progress: 0,
                sequence: 100,
                task_counter: 0,
                led: 0,
                extruder: Heat { temperature: AMBIENT, target: 0 },
                heater_bed: Heat { temperature: AMBIENT, target: 0 },
                elapsed: 0,
            }),
            r.filename@ == ""@,
            r.uuid@ == ""@,
            json::items_value(r.trays@) == seq![
                tray_value(0, "PLA"@, "#FFFFFF"@, 1),
                tray_value(1, "PLA"@, "#000000"@, 1),
                tray_value(2, "PETG"@, "#FF0000"@, 1),
                tray_value(3, ""@, ""@, 0),
            ],
            r.files@.len() == 0,
            r.partial_uploads@.len() == 0,
            r.uploads@.len() == 0,
            r.started@.len() == 0,
            r.history@.len() == 0,
            r.registration_reply@ == "ok"@,
            r.answer_pings,
            r.requests_seen@.len() == 0,
    {
        let mut trays: Vec<Json> = Vec::new();
        trays.push(tray(0, "PLA", "#FFFFFF", 1));
        trays.push(tray(1, "PLA", "#000000", 1));
        trays.push(tray(2, "PETG", "#FF0000", 1));
        trays.push(tray(3, "", "", 0));
        proof {
            json::lemma_items_value(trays@);
            assert(json::items_value(trays@) =~= seq![
                tray_value(0, "PLA"@, "#FFFFFF"@, 1),
                tray_value(1, "PLA"@, "#000000"@, 1),
                tray_value(2, "PETG"@, "#FF0000"@, 1),
                tray_value(3, ""@, ""@, 0),
            ]);
        }
        FakePrinter {
            serial: options.serial,
            password: options.password,
            machine: Machine {
                status: 1,
                sub_status: 0,
                progress: 0,
                sequence: 100,
                task_counter: 0,
                led: 0,
                extruder: Heat { temperature: AMBIENT, target: 0 },
                heater_bed: Heat { temperature: AMBIENT, target: 0 },
                elapsed: 0,
            },
            filename: "".to_string(),
            uuid: "".to_string(),
            trays,
            files: Vec::new(),
            partial_uploads: Vec::new(),
            uploads: Vec::new(),
            started: Vec::new(),
            history: Vec::new(),
            registration_reply: "ok".to_string(),
            answer_pings: true,
            requests_seen: Vec::new(),
        }
    }

    /// Everything but the machine is as in `old`.
    pub open spec fn same_but_for_machine(self, old: FakePrinter) -> bool {
        &&& self.same_store(old)
        &&& self.filename == old.filename
        &&& self.uuid == old.uuid
        &&& self.started == old.started
        &&& self.requests_seen == old.requests_seen
    }

    /// Gives the changes their number.
    fn push_delta(&mut self, delta: Vec<(String, Json)>) -> (r: Message)
        requires
            old(self).machine.sequence < u64::MAX,
        ensures
            final(self).same_but_for_machine(*old(self)),
            final(self).history == old(self).history,
            final(self).machine == (Machine {
                sequence: (old(self).machine.sequence + 1) as u64,
                ..old(self).machine
            }),
            r.suffix@ == "api_status"@,
            r.payload.value() == event_value(
                json::members_value(delta@),
                old(self).machine.sequence + 1,
            ),
    {
        let sequence: u64 = self.machine.sequence + 1;
        self.machine.sequence = sequence;
        let mut result = delta;
        json::put(&mut result, "sequence", Json::Unsigned(sequence));
        let mut m: Vec<(String, Json)> = Vec::new();
        json::put(&mut m, "id", Json::Unsigned(sequence));
        json::put(&mut m, "method", Json::Unsigned(6000));
        json::put(&mut m, "result", Json::Object(result));
        assert(json::members_value(m@) =~= event_value(
            json::members_value(delta@),
            sequence as int,
        )->Object_0);
        Message { suffix: "api_status".to_string(), payload: Json::Object(m) }
    }

    pub fn set_registration_reply(&mut self, reply: &str)
        ensures
            final(self).registration_reply@ == reply@,
            *final(self) == (FakePrinter {
                registration_reply: final(self).registration_reply,
                ..*old(self)
            }),
    {
        self.registration_reply = reply.to_string();
    }

    pub fn set_answer_pings(&mut self, answer: bool)
        ensures
            *final(self) == (FakePrinter { answer_pings: answer, ..*old(self) }),
    {
        self.answer_pings = answer;
    }

    pub fn set_tray(&mut self, tray_id: usize, filament_type: &str, color: &str, status: i64)
        requires
            tray_id < old(self).trays@.len(),
        ensures
            *final(self) == (FakePrinter { trays: final(self).trays, ..*old(self) }),
            json::items_value(final(self).trays@) == json::items_value(old(self).trays@).update(
                tray_id as int,
                tray_value(tray_id as nat, filament_type@, color@, status as int),
            ),
    {
        let ghost before = self.trays@;
        self.trays[tray_id] = tray(tray_id, filament_type, color, status);
        proof {
            json::lemma_items_value(before);
            json::lemma_items_value(self.trays@);
            assert(json::items_value(self.trays@) =~= json::items_value(before).update(
                tray_id as int,
                tray_value(tray_id as nat, filament_type@, color@, status as int),
            ));
        }
    }

    pub fn add_file(&mut self, filename: &str, bytes: &[u8])
        ensures
            *final(self) == (FakePrinter { files: final(self).files, ..*old(self) }),
            forall|name: Seq<char>| #[trigger]
                stored(final(self).files@, name) == if name == filename@ {
                    Some(bytes@)
                } else {
                    stored(old(self).files@, name)
                },
    {
        let mut copy: Vec<u8> = Vec::new();
        copy.extend_from_slice(bytes);
        assert(copy@ =~= bytes@);
        store(&mut self.files, filename, copy);
    }

    pub fn set_progress(&mut self, progress: i64) -> (r: Message)
        requires
            old(self).machine.sequence < u64::MAX,
        ensures
            final(self).same_but_for_machine(*old(self)),
            final(self).machine == (Machine {
                progress,
                sequence: (old(self).machine.sequence + 1) as u64,
                ..old(self).machine
            }),
            r.suffix@ == "api_status"@,
            r.payload.value() == event_value(
                progress_delta(progress as int),
                old(self).machine.sequence + 1,
            ),
    {
        self.machine.progress = progress;
        let mut m: Vec<(String, Json)> = Vec::new();
        json::put(
            &mut m,
            "machine_status",
            json::single_object("progress", json::whole_number(progress)),
        );
        json::put(
            &mut m,
            "print_status",
            json::single_object("progress", json::whole_number(progress)),
        );
        assert(json::members_value(m@) =~= progress_delta(progress as int));
        self.push_delta(m)
    }

    /// As firmware 02.01.00.00 ends a print: plain idle, no completion sub-status, and the
    /// filename cleared. Only the task history records that it finished.
    pub fn complete_print(&mut self) -> (r: Message)
        requires
            old(self).machine.sequence < u64::MAX,
        ensures
            final(self).machine == (Machine {
                status: 1,
                sub_status: 0,
                progress: 0,
                sequence: (old(self).machine.sequence + 1) as u64,
                ..old(self).machine
            }),
            final(self).filename@ == ""@,
            final(self).uuid@ == ""@,
            json::items_value(final(self).history@) == json::items_value(old(self).history@).push(
                task_value(
                    old(self).uuid@,
                    old(self).filename@,
                    old(self).machine.task_counter as int,
                ),
            ),
            *final(self) == (FakePrinter {
                machine: final(self).machine,
                filename: final(self).filename,
                uuid: final(self).uuid,
                history: final(self).history,
                ..*old(self)
            }),
            r.suffix@ == "api_status"@,
            r.payload.value() == event_value(idle_delta(), old(self).machine.sequence + 1),
    {
        let mut t: Vec<(String, Json)> = Vec::new();
        json::put_text(&mut t, "task_id", self.uuid.as_str());
        json::put_text(&mut t, "task_name", self.filename.as_str());
        json::put(&mut t, "task_status", Json::Unsigned(1));
        json::put(&mut t, "begin_time", Json::Unsigned(0));
        json::put(&mut t, "end_time", Json::Unsigned(self.machine.task_counter));
        assert(json::members_value(t@) =~= task_value(
            self.uuid@,
            self.filename@,
            self.machine.task_counter as int,
        )->Object_0);
        let finished = Json::Object(t);
        let ghost shown = finished.value();
        let ghost before = self.history@;
        self.history.push(finished);
        proof {
            json::lemma_items_value(before);
            json::lemma_items_value(self.history@);
            assert(json::items_value(self.history@) =~= json::items_value(before).push(shown));
        }
        self.machine.status = 1;
        self.machine.sub_status = 0;
        self.machine.progress = 0;
        self.filename = "".to_string();
        self.uuid = "".to_string();

        let mut a: Vec<(String, Json)> = Vec::new();
        json::put(&mut a, "status", Json::Unsigned(1));
        json::put(&mut a, "sub_status", Json::Unsigned(0));
        json::put(&mut a, "progress", Json::Unsigned(0));
        assert(json::members_value(a@) =~= idle_delta()[0].1->Object_0);
        let mut b: Vec<(String, Json)> = Vec::new();
        json::put_text(&mut b, "filename", "");
        json::put_text(&mut b, "uuid", "");
        json::put(&mut b, "progress", Json::Unsigned(0));
        json::put_text(&mut b, "state", "standby");
        assert(json::members_value(b@) =~= idle_delta()[1].1->Object_0);
        let mut m: Vec<(String, Json)> = Vec::new();
        json::put(&mut m, "machine_status", Json::Object(a));
        json::put(&mut m, "print_status", Json::Object(b));
        assert(json::members_value(m@) =~= idle_delta());
        self.push_delta(m)
    }

    /// One second of a print that takes `total` seconds: progress, layer and remaining time
    /// advance (not while paused) and the heaters warm to typical PLA targets and cool
    /// afterwards. Returns whether the simulated print just reached its end, and what there is
    /// to report.
    pub fn simulate_second(&mut self, total: u64) -> (r: (bool, Option<Message>))
        requires
            old(self).well_formed(),
            total >= 1,
            old(self).machine.elapsed <= u64::MAX / 100 - 1,
            old(self).machine.sequence < u64::MAX,
        ensures
            final(self).well_formed(),
            final(self).same_but_for_machine(*old(self)),
            ({
                let before = old(self).machine;
                let after = second_later(before, total);
                let delta = second_delta(before, after, total);
                &&& r.0 == (before.status == 2 && after.elapsed >= total)
                &&& if delta.len() == 0 {
                    r.1 is None && final(self).machine == after
                } else {
                    &&& final(self).machine == (Machine {
                        sequence: (before.sequence + 1) as u64,
                        ..after
                    })
                    &&& r.1 matches Some(message) && message.suffix@ == "api_status"@
                        && message.payload.value() == event_value(delta, before.sequence + 1)
                }
            }),
    {
        let before = self.machine;
        let printing = before.status == 2;
        let nozzle: i64 = if printing {
            NOZZLE_TARGET
        } else {
            0
        };
        let bed: i64 = if printing {
            BED_TARGET
        } else {
            0
        };
        self.machine.extruder = approach(before.extruder.temperature, nozzle);
        self.machine.heater_bed = approach(before.heater_bed.temperature, bed);
        let mut delta: Vec<(String, Json)> = Vec::new();
        if before.extruder != self.machine.extruder || before.heater_bed != self.machine.heater_bed {
            json::put(&mut delta, "extruder", heater(self.machine.extruder));
            json::put(&mut delta, "heater_bed", heater(self.machine.heater_bed));
        }
        if printing && before.sub_status == 2075 {
            let elapsed: u64 = before.elapsed + 1;
            self.machine.elapsed = elapsed;
            let percent: u64 = elapsed * 100 / total;
            self.machine.progress = if percent <= 0x7fff_ffff_ffff_ffff {
                percent as i64
            } else {
                100
            };
            json::put(
                &mut delta,
                "machine_status",
                json::single_object("progress", json::whole_number(self.machine.progress)),
            );
            json::put(&mut delta, "print_status", running(&self.machine, total));
        }
        assert(self.machine == second_later(before, total));
        assert(json::members_value(delta@) =~= second_delta(before, self.machine, total));
        proof {
            json::lemma_members_value(delta@);
        }
        let done = printing && self.machine.elapsed >= total;
        if delta.len() > 0 {
            let message = self.push_delta(delta);
            (done, Some(message))
        } else {
            (done, None)
        }
    }
}

/// The machine `n` seconds later.
pub open spec fn seconds_later(machine: Machine, total: u64, n: nat) -> Machine
    decreases n,
{
    if n == 0 {
        machine
    } else {
        second_later(seconds_later(machine, total, (n - 1) as nat), total)
    }
}

/// A print that is neither paused nor stopped has run `n` seconds after `n` seconds, so it ends
/// after exactly as many as it takes.
pub proof fn a_print_takes_its_time(machine: Machine, total: u64, n: nat)
    requires
        machine.status == 2,
        machine.sub_status == 2075,
        machine.elapsed == 0,
        n <= total,
    ensures
        seconds_later(machine, total, n).status == 2,
        seconds_later(machine, total, n).sub_status == 2075,
        seconds_later(machine, total, n).elapsed == n,
    decreases n,
{
    if n > 0 {
        a_print_takes_its_time(machine, total, (n - 1) as nat);
    }
}

// ---------------------------------------------------------------------------------------------
// Messages
// ---------------------------------------------------------------------------------------------

/// What there is to publish, topic by topic.
pub open spec fn published(messages: Seq<Message>) -> Seq<(Seq<char>, Value)> {
    messages.map_values(|message: Message| (message.suffix@, message.payload.value()))
}

pub open spec fn member_or_null(message: Value, key: Seq<char>) -> Value {
    match message.get(key) {
        Some(value) => value,
        None => Value::Null,
    }
}

fn find_member_or_null(message: &Json, key: &str) -> (r: Json)
    ensures
        r.value() == member_or_null(message.value(), key@),
{
    match message.get(key) {
        Some(value) => value.duplicate(),
        None => Json::Null,
    }
}

/// Whose request a topic is.
pub open spec fn requesting_client(serial: Seq<char>, topic: Seq<char>) -> Option<Seq<char>> {
    let prefix = "elegoo/"@ + serial + "/"@;
    let suffix = "/api_request"@;
    if !text::starts_with(topic, prefix) {
        None
    } else {
        let rest = topic.skip(prefix.len() as int);
        if text::ends_with(rest, suffix) {
            Some(rest.take(rest.len() - suffix.len()))
        } else {
            None
        }
    }
}

fn find_client(serial: &str, topic: &str) -> (r: Option<String>)
    ensures
        match r {
            Some(client) => requesting_client(serial@, topic@) == Some(client@),
            None => requesting_client(serial@, topic@) is None,
        },
{
    let mut prefix = String::new();
    prefix.append("elegoo/");
    prefix.append(serial);
    prefix.append("/");
    assert(prefix@ =~= "elegoo/"@ + serial@ + "/"@);
    let chars = text::chars(topic);
    let start = text::chars(prefix.as_str());
    if !text::has_prefix(chars.as_slice(), start.as_slice()) {
        return None;
    }
    let rest = vstd::slice::slice_subrange(chars.as_slice(), start.len(), chars.len());
    assert(rest@ =~= topic@.skip(prefix@.len() as int));
    let end = text::chars("/api_request");
    if !text::has_suffix(rest, end.as_slice()) {
        return None;
    }
    let client = vstd::slice::slice_subrange(rest, 0, rest.len() - end.len());
    assert(client@ =~= rest@.take(rest@.len() - "/api_request"@.len()));
    Some(text::string(client))
}

pub open spec fn registration_value(message: Value, reply: Seq<char>) -> Value {
    Value::Object(
        seq![
            ("client_id"@, member_or_null(message, "client_id"@)),
            ("error"@, Value::Text(reply)),
        ],
    )
}

pub open spec fn reply_value(id: Value, method: int, result: Value) -> Value {
    Value::Object(seq![("id"@, id), ("method"@, json::whole(method)), ("result"@, result)])
}

/// The method of a request, which is cut to 32 bits.
pub open spec fn method_of(message: Value) -> Option<u32> {
    match message.get("method"@) {
        Some(value) => match json::number_u64(value) {
            Some(n) => Some((n % 0x1_0000_0000) as u32),
            None => None,
        },
        None => None,
    }
}

/// What the printer does with a message.
pub ghost enum Heard {
    Nothing,
    Registration,
    Ping { client: Seq<char> },
    Command { client: Seq<char>, method: u32 },
}

pub open spec fn heard(serial: Seq<char>, topic: Seq<char>, message: Value) -> Heard {
    if topic == "elegoo/"@ + serial + "/api_register"@ {
        Heard::Registration
    } else {
        match requesting_client(serial, topic) {
            None => Heard::Nothing,
            Some(client) => if message.get("type"@) == Some(Value::Text("PING"@)) {
                Heard::Ping { client }
            } else {
                match method_of(message) {
                    Some(method) => Heard::Command { client, method },
                    None => Heard::Nothing,
                }
            },
        }
    }
}

fn is_ping(message: &Json) -> (r: bool)
    ensures
        r == (message.value().get("type"@) == Some(Value::Text("PING"@))),
{
    match message.get("type") {
        Some(kind) => match kind.as_str() {
            Some(kind) => text::same(kind, "PING"),
            None => false,
        },
        None => false,
    }
}

fn find_method(message: &Json) -> (r: Option<u32>)
    ensures
        r == method_of(message.value()),
{
    match message.get("method") {
        Some(value) => match value.as_u64() {
            Some(n) => Some((n % 0x1_0000_0000) as u32),
            None => None,
        },
        None => None,
    }
}

impl FakePrinter {
    /// What a message leads to.
    pub open spec fn reacts(
        self,
        after: FakePrinter,
        topic: Seq<char>,
        message: Value,
        out: Seq<(Seq<char>, Value)>,
    ) -> bool {
        match heard(self.serial@, topic, message) {
            Heard::Nothing => after == self && out.len() == 0,
            Heard::Registration => after == self && out == seq![
                (
                    text_in(message, "request_id"@) + "/register_response"@,
                    registration_value(message, self.registration_reply@),
                ),
            ],
            Heard::Ping { client } => after == self && out == if self.answer_pings {
                seq![
                    (client + "/api_response"@, json::single("type"@, Value::Text("PONG"@))),
                ]
            } else {
                seq![]
            },
            Heard::Command { client, method } => {
                let params = member_or_null(message, "params"@);
                let (result, delta) = self.answers(method, params);
                let reply = (
                    client + "/api_response"@,
                    reply_value(member_or_null(message, "id"@), method as int, result),
                );
                let moved = self.machine_after(method, params);
                &&& after.same_store(self)
                &&& after.requests_seen@ == self.requests_seen@.push(method)
                &&& match delta {
                    Some(delta) => {
                        &&& after.machine == (Machine {
                            sequence: (moved.sequence + 1) as u64,
                            ..moved
                        })
                        &&& out == seq![
                            reply,
                            ("api_status"@, event_value(delta->Object_0, moved.sequence + 1)),
                        ]
                    },
                    None => after.machine == moved && out == seq![reply],
                }
                &&& if method == 1020 && self.takes_start(params) {
                    &&& after.filename@ == text_in(params, "filename"@)
                    &&& after.uuid@ == task_name(self.machine.task_counter + 1)
                    &&& json::items_value(after.started@) == json::items_value(self.started@).push(
                        params,
                    )
                } else {
                    &&& after.filename == self.filename
                    &&& after.uuid == self.uuid
                    &&& after.started == self.started
                }
            },
        }
    }

    /// Answers a message that came on `topic`.
    pub fn handle(&mut self, topic: &str, message: &Json) -> (r: Vec<Message>)
        requires
            old(self).well_formed(),
            method_of(message.value()) == Some(1020u32) ==> old(self).machine.task_counter < u64::MAX,
            old(self).machine.sequence < u64::MAX,
        ensures
            final(self).well_formed(),
            old(self).reacts(*final(self), topic@, message.value(), published(r@)),
    {
        let mut out: Vec<Message> = Vec::new();
        let mut register = String::new();
        register.append("elegoo/");
        register.append(self.serial.as_str());
        register.append("/api_register");
        assert(register@ =~= "elegoo/"@ + self.serial@ + "/api_register"@);
        if text::same(topic, register.as_str()) {
            let mut suffix = find_text(message, "request_id");
            suffix.append("/register_response");
            let mut m: Vec<(String, Json)> = Vec::new();
            json::put(&mut m, "client_id", find_member_or_null(message, "client_id"));
            json::put_text(&mut m, "error", self.registration_reply.as_str());
            assert(json::members_value(m@) =~= registration_value(
                message.value(),
                self.registration_reply@,
            )->Object_0);
            out.push(Message { suffix, payload: Json::Object(m) });
            assert(published(out@) =~= seq![
                (
                    text_in(message.value(), "request_id"@) + "/register_response"@,
                    registration_value(message.value(), self.registration_reply@),
                ),
            ]);
            return out;
        }
        let client = match find_client(self.serial.as_str(), topic) {
            Some(client) => client,
            None => {
                return out;
            },
        };
        let ghost name = client@;
        let mut suffix = client;
        suffix.append("/api_response");
        if is_ping(message) {
            if self.answer_pings {
                out.push(
                    Message {
                        suffix,
                        payload: json::single_object("type", Json::Text("PONG".to_string())),
                    },
                );
                assert(published(out@) =~= seq![
                    (name + "/api_response"@, json::single("type"@, Value::Text("PONG"@))),
                ]);
            } else {
                assert(published(out@) =~= seq![]);
            }
            return out;
        }
        let method: u32 = match find_method(message) {
            Some(method) => method,
            None => {
                return out;
            },
        };
        let id = find_member_or_null(message, "id");
        let params = find_member_or_null(message, "params");
        let (result, delta) = self.execute(method, &params);
        let mut m: Vec<(String, Json)> = Vec::new();
        json::put(&mut m, "id", id);
        json::put(&mut m, "method", Json::Unsigned(method as u64));
        json::put(&mut m, "result", result);
        let ghost reply = reply_value(
            member_or_null(message.value(), "id"@),
            method as int,
            old(self).answers(method, params.value()).0,
        );
        assert(json::members_value(m@) =~= reply->Object_0);
        out.push(Message { suffix, payload: Json::Object(m) });
        match delta {
            Some(Json::Object(members)) => {
                let ghost sequence = self.machine.sequence;
                let pushed = self.push_delta(members);
                out.push(pushed);
                assert(published(out@) =~= seq![
                    (name + "/api_response"@, reply),
                    ("api_status"@, event_value(json::members_value(members@), sequence + 1)),
                ]);
            },
            _ => {
                assert(published(out@) =~= seq![(name + "/api_response"@, reply)]);
            },
        }
        out
    }
}

// ---------------------------------------------------------------------------------------------
// Uploads
// ---------------------------------------------------------------------------------------------

/// The first unfinished upload from position `i` on with the given name, or the number of them.
pub open spec fn part_at(parts: Seq<PartialUpload>, name: Seq<char>, i: int) -> int
    decreases parts.len() - i,
{
    if i >= parts.len() {
        parts.len() as int
    } else if parts[i].filename@ == name {
        i
    } else {
        part_at(parts, name, i + 1)
    }
}

proof fn lemma_part_at_is(parts: Seq<PartialUpload>, name: Seq<char>, i: int, at: int)
    requires
        0 <= i <= at <= parts.len(),
        at < parts.len() ==> parts[at].filename@ == name,
        forall|k: int| i <= k < at ==> (#[trigger] parts[k]).filename@ != name,
    ensures
        part_at(parts, name, i) == at,
    decreases at - i,
{
    if i < at {
        lemma_part_at_is(parts, name, i + 1, at);
    }
}

fn find_part(parts: &Vec<PartialUpload>, name: &str) -> (r: usize)
    ensures
        r == part_at(parts@, name@, 0),
        r <= parts@.len(),
        r < parts@.len() ==> parts@[r as int].filename@ == name@,
{
    let mut i: usize = 0;
    while i < parts.len()
        invariant
            i <= parts@.len(),
            forall|k: int| 0 <= k < i ==> (#[trigger] parts@[k]).filename@ != name@,
        decreases parts.len() - i,
    {
        if text::same(parts[i].filename.as_str(), name) {
            proof {
                lemma_part_at_is(parts@, name@, 0, i as int);
            }
            return i;
        }
        i += 1;
    }
    proof {
        lemma_part_at_is(parts@, name@, 0, i as int);
    }
    i
}

/// What has come of a file so far.
pub open spec fn received(parts: Seq<PartialUpload>, name: Seq<char>) -> Seq<u8> {
    let i = part_at(parts, name, 0);
    if i < parts.len() {
        parts[i].bytes@
    } else {
        seq![]
    }
}

/// The checksum that the first part of a file came with.
pub open spec fn first_md5(parts: Seq<PartialUpload>, name: Seq<char>, now: Option<String>) -> Option<
    String,
> {
    let i = part_at(parts, name, 0);
    if i < parts.len() {
        parts[i].md5_header
    } else {
        now
    }
}

/// The unfinished uploads without the first of the given name.
pub open spec fn without_part(parts: Seq<PartialUpload>, name: Seq<char>) -> Seq<PartialUpload> {
    let i = part_at(parts, name, 0);
    if i < parts.len() {
        parts.remove(i)
    } else {
        parts
    }
}

pub open spec fn accepted_value(end: int) -> Value {
    Value::Object(seq![("error_code"@, json::whole(0)), ("offset"@, json::whole(end))])
}

fn accepted(end: u64) -> (r: Json)
    ensures
        r.value() == accepted_value(end as int),
{
    let mut m: Vec<(String, Json)> = Vec::new();
    json::put(&mut m, "error_code", Json::Unsigned(0));
    json::put(&mut m, "offset", Json::Unsigned(end));
    assert(json::members_value(m@) =~= accepted_value(end as int)->Object_0);
    Json::Object(m)
}

impl FakePrinter {
    /// What a request needs to be a part of a file: a name, and a range as long as the body.
    pub open spec fn part_of(
        filename: Option<String>,
        content_range_header: Option<String>,
        body: Seq<u8>,
    ) -> Result<(Seq<char>, nat, nat, nat), int> {
        match (filename, content_range_header) {
            (Some(filename), Some(header)) => match content_range(header@) {
                Some((start, end, total)) => if end + 1 - start != body.len() {
                    Err(9000)
                } else {
                    Ok((filename@, start, end, total))
                },
                None => Err(1003),
            },
            _ => Err(1003),
        }
    }

    /// Takes a part of a file, which has to go on where the last one ended. The status of the
    /// reply and its body.
    pub fn upload(
        &mut self,
        filename: Option<String>,
        content_range_header: Option<String>,
        md5_header: Option<String>,
        body: &[u8],
    ) -> (r: (u16, Json))
        ensures
            *final(self) == (FakePrinter {
                files: final(self).files,
                partial_uploads: final(self).partial_uploads,
                uploads: final(self).uploads,
                ..*old(self)
            }),
            match FakePrinter::part_of(filename, content_range_header, body@) {
                Err(code) => {
                    &&& *final(self) == *old(self)
                    &&& r.0 == 400
                    &&& r.1.value() == error_value(code)
                },
                Ok((name, start, end, total)) => {
                    let parts = old(self).partial_uploads@;
                    let before = received(parts, name);
                    &&& r.0 == 200
                    &&& if before.len() != start {
                        &&& r.1.value() == error_value(9000)
                        &&& final(self).partial_uploads@ == without_part(parts, name)
                        &&& final(self).files == old(self).files
                        &&& final(self).uploads == old(self).uploads
                    } else if end + 1 == total {
                        &&& r.1.value() == accepted_value(end as int)
                        &&& final(self).partial_uploads@ == without_part(parts, name)
                        &&& forall|other: Seq<char>| #[trigger]
                            stored(final(self).files@, other) == if other == name {
                                Some(before + body@)
                            } else {
                                stored(old(self).files@, other)
                            }
                        &&& final(self).uploads@.drop_last() == old(self).uploads@
                        &&& final(self).uploads@.len() == old(self).uploads@.len() + 1
                        &&& final(self).uploads@.last().filename@ == name
                        &&& final(self).uploads@.last().bytes@ == before + body@
                        &&& final(self).uploads@.last().md5_header == first_md5(
                            parts,
                            name,
                            md5_header,
                        )
                    } else {
                        &&& r.1.value() == accepted_value(end as int)
                        &&& final(self).partial_uploads@.drop_last() == without_part(parts, name)
                        &&& final(self).partial_uploads@.len() == without_part(parts, name).len() + 1
                        &&& final(self).partial_uploads@.last().filename@ == name
                        &&& final(self).partial_uploads@.last().bytes@ == before + body@
                        &&& final(self).partial_uploads@.last().md5_header == first_md5(
                            parts,
                            name,
                            md5_header,
                        )
                        &&& final(self).files == old(self).files
                        &&& final(self).uploads == old(self).uploads
                    }
                },
            },
    {
        let filename = match filename {
            Some(filename) => filename,
            None => {
                return (400, error_result(1003));
            },
        };
        let header = match content_range_header {
            Some(header) => header,
            None => {
                return (400, error_result(1003));
            },
        };
        let (start, end, total) = match parse_content_range(header.as_str()) {
            Some(range) => range,
            None => {
                return (400, error_result(1003));
            },
        };
        if end + 1 - start != body.len() as u64 {
            return (400, error_result(9000));
        }
        let ghost parts = self.partial_uploads@;
        let at = find_part(&self.partial_uploads, filename.as_str());
        let mut partial = if at < self.partial_uploads.len() {
            self.partial_uploads.remove(at)
        } else {
            PartialUpload { filename: filename.clone(), md5_header, bytes: Vec::new() }
        };
        assert(self.partial_uploads@ =~= without_part(parts, filename@));
        assert(partial.bytes@ =~= received(parts, filename@));
        if partial.bytes.len() as u64 != start {
            return (200, error_result(9000));
        }
        partial.bytes.extend_from_slice(body);
        assert(partial.bytes@ =~= received(parts, filename@) + body@);
        if end + 1 == total {
            let copy = bytes_clone(&partial.bytes);
            store(&mut self.files, filename.as_str(), copy);
            let ghost uploads = self.uploads@;
            self.uploads.push(
                Upload {
                    filename,
                    md5_header: partial.md5_header,
                    bytes: partial.bytes,
                },
            );
            assert(self.uploads@.drop_last() =~= uploads);
        } else {
            let ghost kept = self.partial_uploads@;
            self.partial_uploads.push(partial);
            assert(self.partial_uploads@.drop_last() =~= kept);
        }
        (200, accepted(end))
    }
}

// ---------------------------------------------------------------------------------------------
// The camera
// ---------------------------------------------------------------------------------------------

pub const CAMERA_BOUNDARY: &'static str = "frame_boundary";

/// A JPEG-shaped payload: start of image, the number with its highest byte first, end of image.
pub open spec fn camera_jpeg(n: u32) -> Seq<u8> {
    seq![
        0xFFu8,
        0xD8,
        (n / 16_777_216) as u8,
        (n / 65_536 % 256) as u8,
        (n / 256 % 256) as u8,
        (n % 256) as u8,
        0xFF,
        0xD9,
    ]
}

/// ASCII text as bytes.
pub open spec fn ascii(s: Seq<char>) -> Seq<u8> {
    s.map_values(|c: char| c as u8)
}

fn push_ascii(out: &mut Vec<u8>, s: &str)
    ensures
        final(out)@ == old(out)@ + ascii(s@),
{
    let chars = text::chars(s);
    let mut part: Vec<u8> = Vec::new();
    let mut i: usize = 0;
    while i < chars.len()
        invariant
            i <= chars@.len(),
            part@ == ascii(chars@.take(i as int)),
        decreases chars.len() - i,
    {
        part.push(chars[i] as u8);
        i += 1;
        assert(part@ =~= ascii(chars@.take(i as int)));
    }
    assert(chars@.take(i as int) =~= chars@);
    out.extend_from_slice(part.as_slice());
    assert(out@ =~= old(out)@ + ascii(s@));
}

pub open spec fn camera_part_bytes(n: u32) -> Seq<u8> {
    ascii("--"@ + "frame_boundary"@ + "\r\nContent-Type: image/jpeg\r\nContent-Length: 8\r\n\r\n"@)
        + camera_jpeg(n) + ascii("\r\n"@)
}

/// A multipart part wrapping a minimal JPEG-shaped payload (SOI, frame counter, EOI).
pub fn camera_part(n: u32) -> (r: Vec<u8>)
    ensures
        r@ == camera_part_bytes(n),
{
    let mut part: Vec<u8> = Vec::new();
    push_ascii(&mut part, "--");
    push_ascii(&mut part, CAMERA_BOUNDARY);
    push_ascii(&mut part, "\r\nContent-Type: image/jpeg\r\nContent-Length: 8\r\n\r\n");
    assert(part@ =~= ascii(
        "--"@ + "frame_boundary"@ + "\r\nContent-Type: image/jpeg\r\nContent-Length: 8\r\n\r\n"@,
    ));
    let ghost head = part@;
    part.push(0xFF);
    part.push(0xD8);
    part.push((n / 16_777_216) as u8);
    part.push((n / 65_536 % 256) as u8);
    part.push((n / 256 % 256) as u8);
    part.push((n % 256) as u8);
    part.push(0xFF);
    part.push(0xD9);
    assert(part@ =~= head + camera_jpeg(n));
    push_ascii(&mut part, "\r\n");
    part
}

/// A print is started on an idle printer that has the file; it then begins at nothing. It is paused,
/// resumed and stopped only while there is one, and nothing else changes what the machine does.
pub proof fn the_machine_does_as_it_is_told(printer: FakePrinter, method: u32, params: Value)
    ensures
        ({
            let before = printer.machine;
            let after = printer.machine_after(method, params);
            let printing = before.status == 2;
            &&& method == 1020 && before.status == 1 && stored(
                printer.files@,
                text_in(params, "filename"@),
            ) is Some ==> after.status == 2 && after.sub_status == 2075 && after.progress == 0
                && after.elapsed == 0
            &&& method == 1021 && printing ==> after.status == 2 && after.sub_status == 2502
            &&& method == 1023 && printing ==> after.status == 2 && after.sub_status == 2075
            &&& method == 1022 && printing ==> after.status == 1 && after.sub_status == 2504
            &&& 1021 <= method <= 1023 && !printing ==> after == before
            &&& method != 1020 && method != 1029 && !(1021 <= method <= 1023) ==> after == before
            &&& method == 1029 ==> after.status == before.status && after.sub_status
                == before.sub_status && after.led == number_in(params, "power"@)
            &&& 1021 <= method <= 1023 ==> after.progress == before.progress && after.elapsed
                == before.elapsed
        }),
        ({
            let (result, delta) = printer.answers(method, params);
            let printing = printer.machine.status == 2;
            &&& 1021 <= method <= 1023 && !printing ==> result == error_value(1010) && delta is None
            &&& 1021 <= method <= 1023 && printing ==> result == error_value(0) && delta is Some
            &&& (method == 1020 || method == 1046) && stored(
                printer.files@,
                text_in(params, "filename"@),
            ) is None && printer.machine.status == 1 ==> result == error_value(1021)
        }),
{
}

/// Heaters warm up while there is a print, and cool down without one; time runs, and progress with
/// it, only while it prints.
pub proof fn time_runs_while_it_prints(machine: Machine, total: u64)
    requires
        0 < total,
        machine.elapsed < u64::MAX,
    ensures
        ({
            let after = second_later(machine, total);
            &&& machine.status == 2 && machine.sub_status == 2075 ==> after.elapsed
                == machine.elapsed + 1
            &&& !(machine.status == 2 && machine.sub_status == 2075) ==> after.elapsed
                == machine.elapsed && after.progress == machine.progress
            &&& after.status == machine.status && after.sub_status == machine.sub_status
            &&& machine.status == 2 ==> after.extruder.target > 0 && after.heater_bed.target > 0
            &&& machine.status != 2 ==> after.extruder.target == 0 && after.heater_bed.target == 0
            &&& machine.status == 2 && machine.sub_status == 2075 && machine.elapsed + 1 == total
                ==> after.progress == 100
        }),
{
    assert(total * 100 / total as int == 100) by (nonlinear_arith)
        requires
            total > 0,
    ;
}

/// What was received of a file is found under its name, and is gone once it is taken away.
pub proof fn parts_are_kept_by_name(parts: Seq<PartialUpload>, k: int)
    requires
        0 <= k < parts.len(),
        forall|j: int|
            0 <= j < parts.len() && j != k ==> (#[trigger] parts[j]).filename@ != parts[k].filename@,
    ensures
        received(parts, parts[k].filename@) == parts[k].bytes@,
        without_part(parts, parts[k].filename@) == parts.remove(k),
{
    lemma_part_found(parts, 0, k);
}

proof fn lemma_part_found(parts: Seq<PartialUpload>, from: int, k: int)
    requires
        0 <= from <= k < parts.len(),
        forall|j: int| from <= j < k ==> (#[trigger] parts[j]).filename@ != parts[k].filename@,
    ensures
        part_at(parts, parts[k].filename@, from) == k,
    decreases k - from,
{
    if from < k {
        lemma_part_found(parts, from + 1, k);
    }
}

} // verus!

//! Printer JSON read as the typed views. What is missing has its default, and a whole number may
//! arrive in several shapes; anything else that is not of its type makes the whole unreadable.

use vstd::prelude::*;

use crate::cc2::discovery::DiscoveryInfo;
use crate::cc2::methods::Envelope;
use crate::cc2::model::{
    self, Attributes, Canvas, CanvasInfo, CanvasStatus, ColorMapEntry, ExternalDevice, FileDetail,
    Heater, MachineStatus, PrintStatus, SoftwareVersion, StatusView, Tray,
};
use crate::decimal::Decimal;
use crate::json::{self, Json, Value};
use crate::num;
use crate::text;

verus! {

// ---------------------------------------------------------------------------------------------
// Fields
// ---------------------------------------------------------------------------------------------

pub open spec fn given(json: Option<&Json>) -> Option<Value> {
    match json {
        Some(json) => Some(json.value()),
        None => None,
    }
}

/// Whether a value can be a record of so many fields: an object, or a list of its fields in
/// order, of which the last may be left out. A record that is missing has nothing but defaults.
pub open spec fn is_record(value: Option<Value>, fields: int) -> bool {
    match value {
        None => true,
        Some(Value::Object(_)) => true,
        Some(Value::List(items)) => items.len() <= fields,
        Some(_) => false,
    }
}

/// A field of a record, by its key or its place.
pub open spec fn part(value: Option<Value>, key: Seq<char>, place: int) -> Option<Value> {
    match value {
        Some(Value::Object(members)) => Value::Object(members).get(key),
        Some(Value::List(items)) => if place < items.len() {
            Some(items[place])
        } else {
            None
        },
        _ => None,
    }
}

fn reads_as_record(json: Option<&Json>, fields: usize) -> (r: bool)
    ensures
        r == is_record(given(json), fields as int),
{
    match json {
        None => true,
        Some(Json::Object(_)) => true,
        Some(Json::List(items)) => {
            proof {
                json::lemma_items_value(items@);
            }
            items.len() <= fields
        },
        Some(_) => false,
    }
}

fn field<'a>(json: Option<&'a Json>, key: &str, place: usize) -> (r: Option<&'a Json>)
    ensures
        given(r) == part(given(json), key@, place as int),
{
    match json {
        None => None,
        Some(record) => match record {
            Json::Object(_) => record.get(key),
            Json::List(items) => {
                proof {
                    json::lemma_items_value(items@);
                }
                if place < items.len() {
                    Some(&items[place])
                } else {
                    None
                }
            },
            _ => None,
        },
    }
}

pub open spec fn int_in(value: Option<Value>) -> int {
    match opt_int_in(value) {
        Some(n) => n,
        None => 0,
    }
}

pub open spec fn opt_int_in(value: Option<Value>) -> Option<int> {
    match value {
        Some(value) => model::whole_number(value),
        None => None,
    }
}

pub open spec fn text_in(value: Option<Value>) -> Option<Seq<char>> {
    match value {
        None => Some(Seq::empty()),
        Some(Value::Text(s)) => Some(s),
        Some(_) => None,
    }
}

pub open spec fn flag_in(value: Option<Value>) -> Option<bool> {
    match value {
        None => Some(false),
        Some(Value::Bool(b)) => Some(b),
        Some(_) => None,
    }
}

/// A number that is neither negative nor above what 32 bits hold.
pub open spec fn count_in(value: Option<Value>) -> Option<u32> {
    match value {
        None => Some(0),
        Some(Value::Unsigned(n)) => if n <= u32::MAX {
            Some(n as u32)
        } else {
            None
        },
        Some(_) => None,
    }
}

/// A number, whether or not it has a fraction.
pub open spec fn amount_in(value: Option<Value>) -> Option<Decimal> {
    match value {
        None => Some(Decimal { negative: false, digits: 0, power: 0 }),
        Some(Value::Unsigned(n)) => Some(Decimal { negative: false, digits: n, power: 0 }),
        Some(Value::Negative(n)) => Some(
            Decimal { negative: n < 0, digits: num::size(n as int) as u64, power: 0 },
        ),
        Some(Value::Real(number)) => Some(number),
        Some(_) => None,
    }
}

pub open spec fn ints_in(value: Option<Value>) -> Option<Seq<i64>> {
    match value {
        None => Some(Seq::empty()),
        Some(Value::List(items)) => if forall|i: int|
            0 <= i < items.len() ==> json::number_i64(#[trigger] items[i]) is Some {
            Some(Seq::new(items.len(), |i: int| json::number_i64(items[i])->0))
        } else {
            None
        },
        Some(_) => None,
    }
}

fn opt_int_field(json: Option<&Json>, key: &str, place: usize) -> (r: Option<i64>)
    ensures
        match r {
            Some(n) => opt_int_in(part(given(json), key@, place as int)) == Some(n as int),
            None => opt_int_in(part(given(json), key@, place as int)) is None,
        },
{
    match field(json, key, place) {
        Some(value) => model::lenient_int(value),
        None => None,
    }
}

fn int_field(json: Option<&Json>, key: &str, place: usize) -> (r: i64)
    ensures
        r == int_in(part(given(json), key@, place as int)),
{
    match opt_int_field(json, key, place) {
        Some(n) => n,
        None => 0,
    }
}

fn text_field(json: Option<&Json>, key: &str, place: usize) -> (r: Option<String>)
    ensures
        text::opt_view(r) == text_in(part(given(json), key@, place as int)),
{
    match field(json, key, place) {
        None => {
            let none = String::new();
            assert(none@ =~= Seq::<char>::empty());
            Some(none)
        },
        Some(Json::Text(s)) => Some(s.clone()),
        Some(_) => None,
    }
}

fn flag_field(json: Option<&Json>, key: &str, place: usize) -> (r: Option<bool>)
    ensures
        r == flag_in(part(given(json), key@, place as int)),
{
    match field(json, key, place) {
        None => Some(false),
        Some(Json::Bool(b)) => Some(*b),
        Some(_) => None,
    }
}

fn count_field(json: Option<&Json>, key: &str, place: usize) -> (r: Option<u32>)
    ensures
        r == count_in(part(given(json), key@, place as int)),
{
    match field(json, key, place) {
        None => Some(0),
        Some(Json::Unsigned(n)) => {
            if *n <= 0xffff_ffff {
                Some(*n as u32)
            } else {
                None
            }
        },
        Some(_) => None,
    }
}

fn amount_field(json: Option<&Json>, key: &str, place: usize) -> (r: Option<Decimal>)
    ensures
        r == amount_in(part(given(json), key@, place as int)),
{
    match field(json, key, place) {
        None => Some(Decimal { negative: false, digits: 0, power: 0 }),
        Some(Json::Unsigned(n)) => Some(Decimal { negative: false, digits: *n, power: 0 }),
        Some(Json::Negative(n)) => Some(Decimal::from_whole(*n)),
        Some(Json::Real(number)) => Some(*number),
        Some(_) => None,
    }
}

fn ints_field(json: Option<&Json>, key: &str, place: usize) -> (r: Option<Vec<i64>>)
    ensures
        match r {
            Some(list) => ints_in(part(given(json), key@, place as int)) == Some(list@),
            None => ints_in(part(given(json), key@, place as int)) is None,
        },
{
    match field(json, key, place) {
        None => {
            let none: Vec<i64> = Vec::new();
            assert(none@ =~= Seq::<i64>::empty());
            Some(none)
        },
        Some(Json::List(items)) => {
            let ghost values = json::items_value(items@);
            proof {
                json::lemma_items_value(items@);
            }
            let mut list: Vec<i64> = Vec::new();
            let mut i: usize = 0;
            while i < items.len()
                invariant
                    i <= items@.len(),
                    part(given(json), key@, place as int) == Some(Value::List(values)),
                    values.len() == items@.len(),
                    forall|k: int|
                        0 <= k < items@.len() ==> #[trigger] values[k] == items@[k].value(),
                    list@.len() == i,
                    forall|k: int|
                        0 <= k < i ==> json::number_i64(#[trigger] values[k]) == Some(list@[k]),
                decreases items.len() - i,
            {
                match items[i].as_i64() {
                    Some(n) => list.push(n),
                    None => {
                        assert(json::number_i64(values[i as int]) is None);
                        return None;
                    },
                }
                i += 1;
            }
            assert(list@ =~= Seq::new(values.len(), |i: int| json::number_i64(values[i])->0));
            Some(list)
        },
        Some(_) => None,
    }
}

// ---------------------------------------------------------------------------------------------
// Status
// ---------------------------------------------------------------------------------------------

pub open spec fn machine_reads(v: Option<Value>) -> bool {
    is_record(v, 4) && ints_in(part(v, "exception_status"@, 2)) is Some
}

impl MachineStatus {
    pub open spec fn shows(self, v: Option<Value>) -> bool {
        &&& self.status == int_in(part(v, "status"@, 0))
        &&& self.sub_status == int_in(part(v, "sub_status"@, 1))
        &&& Some(self.exception_status@) == ints_in(part(v, "exception_status"@, 2))
        &&& self.progress == int_in(part(v, "progress"@, 3))
    }
}

fn read_machine(json: Option<&Json>) -> (r: Option<MachineStatus>)
    ensures
        match r {
            Some(status) => machine_reads(given(json)) && status.shows(given(json)),
            None => !machine_reads(given(json)),
        },
{
    if !reads_as_record(json, 4) {
        return None;
    }
    match ints_field(json, "exception_status", 2) {
        Some(exception_status) => Some(
            MachineStatus {
                status: int_field(json, "status", 0),
                sub_status: int_field(json, "sub_status", 1),
                exception_status,
                progress: int_field(json, "progress", 3),
            },
        ),
        None => None,
    }
}

pub open spec fn print_reads(v: Option<Value>) -> bool {
    &&& is_record(v, 9)
    &&& text_in(part(v, "filename"@, 0)) is Some
    &&& text_in(part(v, "uuid"@, 1)) is Some
    &&& text_in(part(v, "state"@, 8)) is Some
}

impl PrintStatus {
    pub open spec fn shows(self, v: Option<Value>) -> bool {
        &&& Some(self.filename@) == text_in(part(v, "filename"@, 0))
        &&& Some(self.uuid@) == text_in(part(v, "uuid"@, 1))
        &&& self.current_layer == int_in(part(v, "current_layer"@, 2))
        &&& self.total_layer == int_in(part(v, "total_layer"@, 3))
        &&& self.print_duration == int_in(part(v, "print_duration"@, 4))
        &&& self.total_duration == int_in(part(v, "total_duration"@, 5))
        &&& self.remaining_time_sec == int_in(part(v, "remaining_time_sec"@, 6))
        &&& self.progress == int_in(part(v, "progress"@, 7))
        &&& Some(self.state@) == text_in(part(v, "state"@, 8))
    }
}

fn read_print(json: Option<&Json>) -> (r: Option<PrintStatus>)
    ensures
        match r {
            Some(status) => print_reads(given(json)) && status.shows(given(json)),
            None => !print_reads(given(json)),
        },
{
    if !reads_as_record(json, 9) {
        return None;
    }
    match (text_field(json, "filename", 0), text_field(json, "uuid", 1), text_field(json, "state", 8)) {
        (Some(filename), Some(uuid), Some(state)) => Some(
            PrintStatus {
                filename,
                uuid,
                current_layer: int_field(json, "current_layer", 2),
                total_layer: int_field(json, "total_layer", 3),
                print_duration: int_field(json, "print_duration", 4),
                total_duration: int_field(json, "total_duration", 5),
                remaining_time_sec: int_field(json, "remaining_time_sec", 6),
                progress: int_field(json, "progress", 7),
                state,
            },
        ),
        _ => None,
    }
}

pub open spec fn heater_reads(v: Option<Value>) -> bool {
    &&& is_record(v, 2)
    &&& amount_in(part(v, "temperature"@, 0)) is Some
    &&& amount_in(part(v, "target"@, 1)) is Some
}

impl Heater {
    pub open spec fn shows(self, v: Option<Value>) -> bool {
        &&& Some(self.temperature) == amount_in(part(v, "temperature"@, 0))
        &&& Some(self.target) == amount_in(part(v, "target"@, 1))
    }
}

fn read_heater(json: Option<&Json>) -> (r: Option<Heater>)
    ensures
        match r {
            Some(heater) => heater_reads(given(json)) && heater.shows(given(json)),
            None => !heater_reads(given(json)),
        },
{
    if !reads_as_record(json, 2) {
        return None;
    }
    match (amount_field(json, "temperature", 0), amount_field(json, "target", 1)) {
        (Some(temperature), Some(target)) => Some(Heater { temperature, target }),
        _ => None,
    }
}

pub open spec fn device_reads(v: Option<Value>) -> bool {
    &&& is_record(v, 2)
    &&& flag_in(part(v, "camera"@, 0)) is Some
    &&& flag_in(part(v, "u_disk"@, 1)) is Some
}

impl ExternalDevice {
    pub open spec fn shows(self, v: Option<Value>) -> bool {
        &&& Some(self.camera) == flag_in(part(v, "camera"@, 0))
        &&& Some(self.u_disk) == flag_in(part(v, "u_disk"@, 1))
    }
}

fn read_device(json: Option<&Json>) -> (r: Option<ExternalDevice>)
    ensures
        match r {
            Some(device) => device_reads(given(json)) && device.shows(given(json)),
            None => !device_reads(given(json)),
        },
{
    if !reads_as_record(json, 2) {
        return None;
    }
    match (flag_field(json, "camera", 0), flag_field(json, "u_disk", 1)) {
        (Some(camera), Some(u_disk)) => Some(ExternalDevice { camera, u_disk }),
        _ => None,
    }
}

pub open spec fn status_reads(value: Value) -> bool {
    let v = Some(value);
    &&& is_record(v, 5)
    &&& machine_reads(part(v, "machine_status"@, 0))
    &&& print_reads(part(v, "print_status"@, 1))
    &&& heater_reads(part(v, "extruder"@, 2))
    &&& heater_reads(part(v, "heater_bed"@, 3))
    &&& device_reads(part(v, "external_device"@, 4))
}

impl StatusView {
    pub open spec fn shows(self, value: Value) -> bool {
        let v = Some(value);
        &&& self.machine_status.shows(part(v, "machine_status"@, 0))
        &&& self.print_status.shows(part(v, "print_status"@, 1))
        &&& self.extruder.shows(part(v, "extruder"@, 2))
        &&& self.heater_bed.shows(part(v, "heater_bed"@, 3))
        &&& self.external_device.shows(part(v, "external_device"@, 4))
    }

    pub fn read(json: &Json) -> (r: Option<StatusView>)
        ensures
            match r {
                Some(view) => status_reads(json.value()) && view.shows(json.value()),
                None => !status_reads(json.value()),
            },
    {
        let json = Some(json);
        if !reads_as_record(json, 5) {
            return None;
        }
        let machine_status = match read_machine(field(json, "machine_status", 0)) {
            Some(read) => read,
            None => {
                return None;
            },
        };
        let print_status = match read_print(field(json, "print_status", 1)) {
            Some(read) => read,
            None => {
                return None;
            },
        };
        let extruder = match read_heater(field(json, "extruder", 2)) {
            Some(read) => read,
            None => {
                return None;
            },
        };
        let heater_bed = match read_heater(field(json, "heater_bed", 3)) {
            Some(read) => read,
            None => {
                return None;
            },
        };
        let external_device = match read_device(field(json, "external_device", 4)) {
            Some(read) => read,
            None => {
                return None;
            },
        };
        Some(StatusView { machine_status, print_status, extruder, heater_bed, external_device })
    }
}

// ---------------------------------------------------------------------------------------------
// Attributes
// ---------------------------------------------------------------------------------------------

pub open spec fn version_reads(v: Option<Value>) -> bool {
    &&& is_record(v, 3)
    &&& text_in(part(v, "ota_version"@, 0)) is Some
    &&& text_in(part(v, "mcu_version"@, 1)) is Some
    &&& text_in(part(v, "soc_version"@, 2)) is Some
}

impl SoftwareVersion {
    pub open spec fn shows(self, v: Option<Value>) -> bool {
        &&& Some(self.ota_version@) == text_in(part(v, "ota_version"@, 0))
        &&& Some(self.mcu_version@) == text_in(part(v, "mcu_version"@, 1))
        &&& Some(self.soc_version@) == text_in(part(v, "soc_version"@, 2))
    }
}

fn read_version(json: Option<&Json>) -> (r: Option<SoftwareVersion>)
    ensures
        match r {
            Some(version) => version_reads(given(json)) && version.shows(given(json)),
            None => !version_reads(given(json)),
        },
{
    if !reads_as_record(json, 3) {
        return None;
    }
    match (
        text_field(json, "ota_version", 0),
        text_field(json, "mcu_version", 1),
        text_field(json, "soc_version", 2),
    ) {
        (Some(ota_version), Some(mcu_version), Some(soc_version)) => Some(
            SoftwareVersion { ota_version, mcu_version, soc_version },
        ),
        _ => None,
    }
}

pub open spec fn attributes_read(value: Value) -> bool {
    let v = Some(value);
    &&& is_record(v, 8)
    &&& text_in(part(v, "hostname"@, 0)) is Some
    &&& text_in(part(v, "machine_model"@, 1)) is Some
    &&& text_in(part(v, "sn"@, 2)) is Some
    &&& text_in(part(v, "ip"@, 3)) is Some
    &&& version_reads(part(v, "software_version"@, 4))
    &&& flag_in(part(v, "camera_connected"@, 5)) is Some
}

impl Attributes {
    pub open spec fn shows(self, value: Value) -> bool {
        let v = Some(value);
        &&& Some(self.hostname@) == text_in(part(v, "hostname"@, 0))
        &&& Some(self.machine_model@) == text_in(part(v, "machine_model"@, 1))
        &&& Some(self.sn@) == text_in(part(v, "sn"@, 2))
        &&& Some(self.ip@) == text_in(part(v, "ip"@, 3))
        &&& self.software_version.shows(part(v, "software_version"@, 4))
        &&& Some(self.camera_connected) == flag_in(part(v, "camera_connected"@, 5))
        &&& self.max_video_connections == int_in(part(v, "max_video_connections"@, 6))
        &&& self.video_connections == int_in(part(v, "video_connections"@, 7))
    }

    pub fn read(json: &Json) -> (r: Option<Attributes>)
        ensures
            match r {
                Some(attributes) => attributes_read(json.value()) && attributes.shows(json.value()),
                None => !attributes_read(json.value()),
            },
    {
        let json = Some(json);
        if !reads_as_record(json, 8) {
            return None;
        }
        let software_version = match read_version(field(json, "software_version", 4)) {
            Some(read) => read,
            None => {
                return None;
            },
        };
        let camera_connected = match flag_field(json, "camera_connected", 5) {
            Some(read) => read,
            None => {
                return None;
            },
        };
        match (
            text_field(json, "hostname", 0),
            text_field(json, "machine_model", 1),
            text_field(json, "sn", 2),
            text_field(json, "ip", 3),
        ) {
            (Some(hostname), Some(machine_model), Some(sn), Some(ip)) => Some(
                Attributes {
                    hostname,
                    machine_model,
                    sn,
                    ip,
                    software_version,
                    camera_connected,
                    max_video_connections: int_field(json, "max_video_connections", 6),
                    video_connections: int_field(json, "video_connections", 7),
                },
            ),
            _ => None,
        }
    }
}

// ---------------------------------------------------------------------------------------------
// Trays
// ---------------------------------------------------------------------------------------------

pub open spec fn tray_reads(v: Option<Value>) -> bool {
    &&& is_record(v, 8)
    &&& count_in(part(v, "tray_id"@, 0)) is Some
    &&& text_in(part(v, "brand"@, 1)) is Some
    &&& text_in(part(v, "filament_type"@, 2)) is Some
    &&& text_in(part(v, "filament_name"@, 3)) is Some
    &&& text_in(part(v, "filament_color"@, 4)) is Some
}

impl Tray {
    pub open spec fn shows(self, v: Option<Value>) -> bool {
        &&& Some(self.tray_id) == count_in(part(v, "tray_id"@, 0))
        &&& Some(self.brand@) == text_in(part(v, "brand"@, 1))
        &&& Some(self.filament_type@) == text_in(part(v, "filament_type"@, 2))
        &&& Some(self.filament_name@) == text_in(part(v, "filament_name"@, 3))
        &&& Some(self.filament_color@) == text_in(part(v, "filament_color"@, 4))
        &&& self.min_nozzle_temp == int_in(part(v, "min_nozzle_temp"@, 5))
        &&& self.max_nozzle_temp == int_in(part(v, "max_nozzle_temp"@, 6))
        &&& self.status == int_in(part(v, "status"@, 7))
    }
}

fn read_tray(json: &Json) -> (r: Option<Tray>)
    ensures
        match r {
            Some(tray) => tray_reads(Some(json.value())) && tray.shows(Some(json.value())),
            None => !tray_reads(Some(json.value())),
        },
{
    let json = Some(json);
    if !reads_as_record(json, 8) {
        return None;
    }
    let tray_id = match count_field(json, "tray_id", 0) {
        Some(read) => read,
        None => {
            return None;
        },
    };
    match (
        text_field(json, "brand", 1),
        text_field(json, "filament_type", 2),
        text_field(json, "filament_name", 3),
        text_field(json, "filament_color", 4),
    ) {
        (Some(brand), Some(filament_type), Some(filament_name), Some(filament_color)) => Some(
            Tray {
                tray_id,
                brand,
                filament_type,
                filament_name,
                filament_color,
                min_nozzle_temp: int_field(json, "min_nozzle_temp", 5),
                max_nozzle_temp: int_field(json, "max_nozzle_temp", 6),
                status: int_field(json, "status", 7),
            },
        ),
        _ => None,
    }
}

pub open spec fn all_trays_read(items: Seq<Value>) -> bool {
    forall|i: int| 0 <= i < items.len() ==> #[trigger] tray_reads(Some(items[i]))
}

pub open spec fn trays_read(v: Option<Value>) -> bool {
    match v {
        None => true,
        Some(Value::List(items)) => all_trays_read(items),
        Some(_) => false,
    }
}

pub open spec fn trays_shown(trays: Seq<Tray>, v: Option<Value>) -> bool {
    match v {
        Some(Value::List(items)) => {
            &&& trays.len() == items.len()
            &&& forall|i: int| 0 <= i < items.len() ==> (#[trigger] trays[i]).shows(Some(items[i]))
        },
        _ => trays.len() == 0,
    }
}

fn read_trays(json: Option<&Json>) -> (r: Option<Vec<Tray>>)
    ensures
        match r {
            Some(trays) => trays_read(given(json)) && trays_shown(trays@, given(json)),
            None => !trays_read(given(json)),
        },
{
    match json {
        None => Some(Vec::new()),
        Some(Json::List(items)) => {
            let ghost values = json::items_value(items@);
            proof {
                json::lemma_items_value(items@);
            }
            let mut trays: Vec<Tray> = Vec::new();
            let mut i: usize = 0;
            while i < items.len()
                invariant
                    i <= items@.len(),
                    given(json) == Some(Value::List(values)),
                    values.len() == items@.len(),
                    forall|k: int|
                        0 <= k < items@.len() ==> #[trigger] values[k] == items@[k].value(),
                    trays@.len() == i,
                    forall|k: int|
                        0 <= k < i ==> tray_reads(Some(#[trigger] values[k])) && trays@[k].shows(
                            Some(values[k]),
                        ),
                decreases items.len() - i,
            {
                match read_tray(&items[i]) {
                    Some(tray) => trays.push(tray),
                    None => {
                        assert(!tray_reads(Some(values[i as int])));
                        return None;
                    },
                }
                i += 1;
            }
            Some(trays)
        },
        Some(_) => None,
    }
}

pub open spec fn canvas_reads(v: Option<Value>) -> bool {
    &&& is_record(v, 3)
    &&& count_in(part(v, "canvas_id"@, 0)) is Some
    &&& trays_read(part(v, "tray_list"@, 2))
}

impl Canvas {
    pub open spec fn shows(self, v: Option<Value>) -> bool {
        &&& Some(self.canvas_id) == count_in(part(v, "canvas_id"@, 0))
        &&& self.connected == int_in(part(v, "connected"@, 1))
        &&& trays_shown(self.tray_list@, part(v, "tray_list"@, 2))
    }
}

fn read_canvas(json: &Json) -> (r: Option<Canvas>)
    ensures
        match r {
            Some(canvas) => canvas_reads(Some(json.value())) && canvas.shows(Some(json.value())),
            None => !canvas_reads(Some(json.value())),
        },
{
    let json = Some(json);
    if !reads_as_record(json, 3) {
        return None;
    }
    match (count_field(json, "canvas_id", 0), read_trays(field(json, "tray_list", 2))) {
        (Some(canvas_id), Some(tray_list)) => Some(
            Canvas { canvas_id, connected: int_field(json, "connected", 1), tray_list },
        ),
        _ => None,
    }
}

pub open spec fn all_units_read(items: Seq<Value>) -> bool {
    forall|i: int| 0 <= i < items.len() ==> #[trigger] canvas_reads(Some(items[i]))
}

pub open spec fn units_read(v: Option<Value>) -> bool {
    match v {
        None => true,
        Some(Value::List(items)) => all_units_read(items),
        Some(_) => false,
    }
}

pub open spec fn units_shown(units: Seq<Canvas>, v: Option<Value>) -> bool {
    match v {
        Some(Value::List(items)) => {
            &&& units.len() == items.len()
            &&& forall|i: int| 0 <= i < items.len() ==> (#[trigger] units[i]).shows(Some(items[i]))
        },
        _ => units.len() == 0,
    }
}

fn read_units(json: Option<&Json>) -> (r: Option<Vec<Canvas>>)
    ensures
        match r {
            Some(units) => units_read(given(json)) && units_shown(units@, given(json)),
            None => !units_read(given(json)),
        },
{
    match json {
        None => Some(Vec::new()),
        Some(Json::List(items)) => {
            let ghost values = json::items_value(items@);
            proof {
                json::lemma_items_value(items@);
            }
            let mut units: Vec<Canvas> = Vec::new();
            let mut i: usize = 0;
            while i < items.len()
                invariant
                    i <= items@.len(),
                    given(json) == Some(Value::List(values)),
                    values.len() == items@.len(),
                    forall|k: int|
                        0 <= k < items@.len() ==> #[trigger] values[k] == items@[k].value(),
                    units@.len() == i,
                    forall|k: int|
                        0 <= k < i ==> canvas_reads(Some(#[trigger] values[k])) && units@[k].shows(
                            Some(values[k]),
                        ),
                decreases items.len() - i,
            {
                match read_canvas(&items[i]) {
                    Some(unit) => units.push(unit),
                    None => {
                        assert(!canvas_reads(Some(values[i as int])));
                        return None;
                    },
                }
                i += 1;
            }
            Some(units)
        },
        Some(_) => None,
    }
}

pub open spec fn canvas_info_reads(v: Option<Value>) -> bool {
    &&& is_record(v, 4)
    &&& flag_in(part(v, "auto_refill"@, 2)) is Some
    &&& units_read(part(v, "canvas_list"@, 3))
}

impl CanvasInfo {
    pub open spec fn shows(self, v: Option<Value>) -> bool {
        &&& self.active_canvas_id == int_in(part(v, "active_canvas_id"@, 0))
        &&& self.active_tray_id == int_in(part(v, "active_tray_id"@, 1))
        &&& Some(self.auto_refill) == flag_in(part(v, "auto_refill"@, 2))
        &&& units_shown(self.canvas_list@, part(v, "canvas_list"@, 3))
    }
}

fn read_canvas_info(json: Option<&Json>) -> (r: Option<CanvasInfo>)
    ensures
        match r {
            Some(info) => canvas_info_reads(given(json)) && info.shows(given(json)),
            None => !canvas_info_reads(given(json)),
        },
{
    if !reads_as_record(json, 4) {
        return None;
    }
    match (flag_field(json, "auto_refill", 2), read_units(field(json, "canvas_list", 3))) {
        (Some(auto_refill), Some(canvas_list)) => Some(
            CanvasInfo {
                active_canvas_id: int_field(json, "active_canvas_id", 0),
                active_tray_id: int_field(json, "active_tray_id", 1),
                auto_refill,
                canvas_list,
            },
        ),
        _ => None,
    }
}

pub open spec fn canvas_status_reads(value: Value) -> bool {
    is_record(Some(value), 1) && canvas_info_reads(part(Some(value), "canvas_info"@, 0))
}

impl CanvasStatus {
    pub open spec fn shows(self, value: Value) -> bool {
        self.canvas_info.shows(part(Some(value), "canvas_info"@, 0))
    }

    pub fn read(json: &Json) -> (r: Option<CanvasStatus>)
        ensures
            match r {
                Some(status) => canvas_status_reads(json.value()) && status.shows(json.value()),
                None => !canvas_status_reads(json.value()),
            },
    {
        let json = Some(json);
        if !reads_as_record(json, 1) {
            return None;
        }
        match read_canvas_info(field(json, "canvas_info", 0)) {
            Some(canvas_info) => Some(CanvasStatus { canvas_info }),
            None => None,
        }
    }
}

// ---------------------------------------------------------------------------------------------
// Files
// ---------------------------------------------------------------------------------------------

pub open spec fn color_reads(v: Option<Value>) -> bool {
    &&& is_record(v, 3)
    &&& text_in(part(v, "color"@, 0)) is Some
    &&& text_in(part(v, "name"@, 1)) is Some
    &&& count_in(part(v, "t"@, 2)) is Some
}

impl ColorMapEntry {
    pub open spec fn shows(self, v: Option<Value>) -> bool {
        &&& Some(self.color@) == text_in(part(v, "color"@, 0))
        &&& Some(self.name@) == text_in(part(v, "name"@, 1))
        &&& Some(self.t) == count_in(part(v, "t"@, 2))
    }
}

fn read_color(json: &Json) -> (r: Option<ColorMapEntry>)
    ensures
        match r {
            Some(entry) => color_reads(Some(json.value())) && entry.shows(Some(json.value())),
            None => !color_reads(Some(json.value())),
        },
{
    let json = Some(json);
    if !reads_as_record(json, 3) {
        return None;
    }
    match (text_field(json, "color", 0), text_field(json, "name", 1), count_field(json, "t", 2)) {
        (Some(color), Some(name), Some(t)) => Some(ColorMapEntry { color, name, t }),
        _ => None,
    }
}

pub open spec fn all_colors_read(items: Seq<Value>) -> bool {
    forall|i: int| 0 <= i < items.len() ==> #[trigger] color_reads(Some(items[i]))
}

pub open spec fn colors_read(v: Option<Value>) -> bool {
    match v {
        None => true,
        Some(Value::List(items)) => all_colors_read(items),
        Some(_) => false,
    }
}

pub open spec fn colors_shown(colors: Seq<ColorMapEntry>, v: Option<Value>) -> bool {
    match v {
        Some(Value::List(items)) => {
            &&& colors.len() == items.len()
            &&& forall|i: int| 0 <= i < items.len() ==> (#[trigger] colors[i]).shows(Some(items[i]))
        },
        _ => colors.len() == 0,
    }
}

fn read_colors(json: Option<&Json>) -> (r: Option<Vec<ColorMapEntry>>)
    ensures
        match r {
            Some(colors) => colors_read(given(json)) && colors_shown(colors@, given(json)),
            None => !colors_read(given(json)),
        },
{
    match json {
        None => Some(Vec::new()),
        Some(Json::List(items)) => {
            let ghost values = json::items_value(items@);
            proof {
                json::lemma_items_value(items@);
            }
            let mut colors: Vec<ColorMapEntry> = Vec::new();
            let mut i: usize = 0;
            while i < items.len()
                invariant
                    i <= items@.len(),
                    given(json) == Some(Value::List(values)),
                    values.len() == items@.len(),
                    forall|k: int|
                        0 <= k < items@.len() ==> #[trigger] values[k] == items@[k].value(),
                    colors@.len() == i,
                    forall|k: int|
                        0 <= k < i ==> color_reads(Some(#[trigger] values[k])) && colors@[k].shows(
                            Some(values[k]),
                        ),
                decreases items.len() - i,
            {
                match read_color(&items[i]) {
                    Some(entry) => colors.push(entry),
                    None => {
                        assert(!color_reads(Some(values[i as int])));
                        return None;
                    },
                }
                i += 1;
            }
            Some(colors)
        },
        Some(_) => None,
    }
}

pub open spec fn detail_reads(value: Value) -> bool {
    let v = Some(value);
    &&& is_record(v, 8)
    &&& text_in(part(v, "filename"@, 0)) is Some
    &&& amount_in(part(v, "total_filament_used"@, 6)) is Some
    &&& colors_read(part(v, "color_map"@, 7))
}

pub open spec fn is_int(n: Option<i64>, read: Option<int>) -> bool {
    match n {
        Some(n) => read == Some(n as int),
        None => read is None,
    }
}

impl FileDetail {
    pub open spec fn shows(self, value: Value) -> bool {
        let v = Some(value);
        &&& Some(self.filename@) == text_in(part(v, "filename"@, 0))
        &&& self.size == int_in(part(v, "size"@, 1))
        &&& is_int(self.layer, opt_int_in(part(v, "layer"@, 2)))
        &&& is_int(self.total_layers, opt_int_in(part(v, "TotalLayers"@, 3)))
        &&& is_int(self.total_layer, opt_int_in(part(v, "total_layer"@, 4)))
        &&& self.print_time == int_in(part(v, "print_time"@, 5))
        &&& Some(self.total_filament_used) == amount_in(part(v, "total_filament_used"@, 6))
        &&& colors_shown(self.color_map@, part(v, "color_map"@, 7))
    }

    pub fn read(json: &Json) -> (r: Option<FileDetail>)
        ensures
            match r {
                Some(detail) => detail_reads(json.value()) && detail.shows(json.value()),
                None => !detail_reads(json.value()),
            },
    {
        let json = Some(json);
        if !reads_as_record(json, 8) {
            return None;
        }
        match (
            text_field(json, "filename", 0),
            amount_field(json, "total_filament_used", 6),
            read_colors(field(json, "color_map", 7)),
        ) {
            (Some(filename), Some(total_filament_used), Some(color_map)) => Some(
                FileDetail {
                    filename,
                    size: int_field(json, "size", 1),
                    layer: opt_int_field(json, "layer", 2),
                    total_layers: opt_int_field(json, "TotalLayers", 3),
                    total_layer: opt_int_field(json, "total_layer", 4),
                    print_time: int_field(json, "print_time", 5),
                    total_filament_used,
                    color_map,
                },
            ),
            _ => None,
        }
    }
}

// ---------------------------------------------------------------------------------------------
// Messages
// ---------------------------------------------------------------------------------------------

/// A number that may be missing or null.
pub open spec fn id_in(value: Option<Value>) -> Option<Option<u64>> {
    match value {
        None => Some(None),
        Some(Value::Null) => Some(None),
        Some(Value::Unsigned(n)) => Some(Some(n)),
        Some(_) => None,
    }
}

pub open spec fn method_in(value: Option<Value>) -> Option<Option<u32>> {
    match id_in(value) {
        Some(Some(n)) => if n <= u32::MAX {
            Some(Some(n as u32))
        } else {
            None
        },
        Some(None) => Some(None),
        None => None,
    }
}

pub open spec fn kind_in(value: Option<Value>) -> Option<Option<Seq<char>>> {
    match value {
        None => Some(None),
        Some(Value::Null) => Some(None),
        Some(Value::Text(s)) => Some(Some(s)),
        Some(_) => None,
    }
}

pub open spec fn result_in(value: Option<Value>) -> Value {
    match value {
        Some(value) => value,
        None => Value::Null,
    }
}

pub open spec fn envelope_reads(value: Value) -> bool {
    let v = Some(value);
    &&& is_record(v, 4)
    &&& id_in(part(v, "id"@, 0)) is Some
    &&& method_in(part(v, "method"@, 1)) is Some
    &&& kind_in(part(v, "type"@, 3)) is Some
}

fn id_field(json: Option<&Json>, key: &str, place: usize) -> (r: Option<Option<u64>>)
    ensures
        r == id_in(part(given(json), key@, place as int)),
{
    match field(json, key, place) {
        None => Some(None),
        Some(Json::Null) => Some(None),
        Some(Json::Unsigned(n)) => Some(Some(*n)),
        Some(_) => None,
    }
}

fn method_field(json: Option<&Json>, key: &str, place: usize) -> (r: Option<Option<u32>>)
    ensures
        r == method_in(part(given(json), key@, place as int)),
{
    match id_field(json, key, place) {
        Some(Some(n)) => {
            if n <= 0xffff_ffff {
                Some(Some(n as u32))
            } else {
                None
            }
        },
        Some(None) => Some(None),
        None => None,
    }
}

fn kind_field(json: Option<&Json>, key: &str, place: usize) -> (r: Option<Option<String>>)
    ensures
        match r {
            Some(kind) => kind_in(part(given(json), key@, place as int)) == Some(
                text::opt_view(kind),
            ),
            None => kind_in(part(given(json), key@, place as int)) is None,
        },
{
    match field(json, key, place) {
        None => Some(None),
        Some(Json::Null) => Some(None),
        Some(Json::Text(s)) => Some(Some(s.clone())),
        Some(_) => None,
    }
}

impl Envelope {
    pub open spec fn shows(self, value: Value) -> bool {
        let v = Some(value);
        &&& Some(self.id) == id_in(part(v, "id"@, 0))
        &&& Some(self.method) == method_in(part(v, "method"@, 1))
        &&& self.result.value() == result_in(part(v, "result"@, 2))
        &&& Some(text::opt_view(self.kind)) == kind_in(part(v, "type"@, 3))
    }

    pub fn read(json: &Json) -> (r: Option<Envelope>)
        ensures
            match r {
                Some(envelope) => envelope_reads(json.value()) && envelope.shows(json.value()),
                None => !envelope_reads(json.value()),
            },
    {
        let json = Some(json);
        if !reads_as_record(json, 4) {
            return None;
        }
        let result = match field(json, "result", 2) {
            Some(result) => result.duplicate(),
            None => Json::Null,
        };
        match (id_field(json, "id", 0), method_field(json, "method", 1), kind_field(json, "type", 3)) {
            (Some(id), Some(method), Some(kind)) => Some(Envelope { id, method, result, kind }),
            _ => None,
        }
    }
}

/// A whole number, and nothing that only looks like one.
pub open spec fn plain_int_in(value: Option<Value>) -> Option<i64> {
    match value {
        None => Some(0),
        Some(value) => json::number_i64(value),
    }
}

fn plain_int_field(json: Option<&Json>, key: &str, place: usize) -> (r: Option<i64>)
    ensures
        r == plain_int_in(part(given(json), key@, place as int)),
{
    match field(json, key, place) {
        None => Some(0),
        Some(value) => value.as_i64(),
    }
}

/// Whether a reply to a discovery packet reads: it has a result, which has a serial number.
pub open spec fn reply_reads(value: Value) -> bool {
    let v = part(Some(value), "result"@, 0);
    &&& is_record(Some(value), 1)
    &&& v is Some
    &&& is_record(v, 5)
    &&& text_in(part(v, "host_name"@, 0)) is Some
    &&& text_in(part(v, "machine_model"@, 1)) is Some
    &&& part(v, "sn"@, 2) is Some
    &&& text_in(part(v, "sn"@, 2)) is Some
    &&& plain_int_in(part(v, "token_status"@, 3)) is Some
    &&& plain_int_in(part(v, "lan_status"@, 4)) is Some
}

impl DiscoveryInfo {
    pub open spec fn shows(self, value: Value) -> bool {
        let v = part(Some(value), "result"@, 0);
        &&& Some(self.host_name@) == text_in(part(v, "host_name"@, 0))
        &&& Some(self.machine_model@) == text_in(part(v, "machine_model"@, 1))
        &&& Some(self.sn@) == text_in(part(v, "sn"@, 2))
        &&& Some(self.token_status) == plain_int_in(part(v, "token_status"@, 3))
        &&& Some(self.lan_status) == plain_int_in(part(v, "lan_status"@, 4))
    }

    /// What a reply to a discovery packet says.
    pub fn read(reply: &Json) -> (r: Option<DiscoveryInfo>)
        ensures
            match r {
                Some(info) => reply_reads(reply.value()) && info.shows(reply.value()),
                None => !reply_reads(reply.value()),
            },
    {
        let reply = Some(reply);
        let json = field(reply, "result", 0);
        if !reads_as_record(reply, 1) || json.is_none() || !reads_as_record(json, 5) {
            return None;
        }
        if field(json, "sn", 2).is_none() {
            return None;
        }
        let (token_status, lan_status) = match (
            plain_int_field(json, "token_status", 3),
            plain_int_field(json, "lan_status", 4),
        ) {
            (Some(token_status), Some(lan_status)) => (token_status, lan_status),
            _ => {
                return None;
            },
        };
        match (
            text_field(json, "host_name", 0),
            text_field(json, "machine_model", 1),
            text_field(json, "sn", 2),
        ) {
            (Some(host_name), Some(machine_model), Some(sn)) => Some(
                DiscoveryInfo { host_name, machine_model, sn, token_status, lan_status },
            ),
            _ => None,
        }
    }
}

} // verus!

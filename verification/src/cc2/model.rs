//! Typed read-only views over printer JSON. Every field has a default, because deltas and
//! older firmware omit fields freely; a view is never the source of truth, the raw cache is.

use vstd::prelude::*;

use crate::decimal::Decimal;
use crate::json::{Json, Value};
use crate::text;

pub mod printing_sub_status;

verus! {

#[derive(Debug, Clone, PartialEq, Eq)]
pub struct StatusView {
    pub machine_status: MachineStatus,
    pub print_status: PrintStatus,
    pub extruder: Heater,
    pub heater_bed: Heater,
    pub external_device: ExternalDevice,
}

#[derive(Debug, Clone, PartialEq, Eq)]
pub struct MachineStatus {
    pub status: i64,
    pub sub_status: i64,
    pub exception_status: Vec<i64>,
    pub progress: i64,
}

impl Default for MachineStatus {
    fn default() -> (r: MachineStatus)
        ensures
            r.status == 0,
            r.sub_status == 0,
            r.exception_status@ == Seq::<i64>::empty(),
            r.progress == 0,
    {
        MachineStatus { status: 0, sub_status: 0, exception_status: Vec::new(), progress: 0 }
    }
}

impl MachineStatus {
    pub fn state(&self) -> (r: MachineState)
        ensures
            r == machine_state(self.status),
    {
        MachineState::from_code(self.status)
    }
}

#[derive(Debug, Clone, PartialEq, Eq)]
pub struct PrintStatus {
    pub filename: String,
    pub uuid: String,
    pub current_layer: i64,
    pub total_layer: i64,
    pub print_duration: i64,
    pub total_duration: i64,
    pub remaining_time_sec: i64,
    pub progress: i64,
    /// Klipper's own state name: `standby`, `printing`, `paused`, `complete`, `cancelled`, `error`.
    pub state: String,
}

impl Default for PrintStatus {
    fn default() -> (r: PrintStatus)
        ensures
            r.filename@ == ""@,
            r.uuid@ == ""@,
            r.current_layer == 0,
            r.total_layer == 0,
            r.print_duration == 0,
            r.total_duration == 0,
            r.remaining_time_sec == 0,
            r.progress == 0,
            r.state@ == ""@,
    {
        proof {
            reveal_strlit("");
        }
        PrintStatus {
            filename: String::new(),
            uuid: String::new(),
            current_layer: 0,
            total_layer: 0,
            print_duration: 0,
            total_duration: 0,
            remaining_time_sec: 0,
            progress: 0,
            state: String::new(),
        }
    }
}

/// Temperatures in degrees.
#[derive(Debug, Clone, Copy, PartialEq, Eq, Structural)]
pub struct Heater {
    pub temperature: Decimal,
    pub target: Decimal,
}

impl Default for Heater {
    fn default() -> (r: Heater)
        ensures
            r.temperature == (Decimal { negative: false, digits: 0, power: 0 }),
            r.target == (Decimal { negative: false, digits: 0, power: 0 }),
    {
        let zero = Decimal { negative: false, digits: 0, power: 0 };
        Heater { temperature: zero, target: zero }
    }
}

#[derive(Debug, Clone, Copy, PartialEq, Eq, Structural)]
pub struct ExternalDevice {
    pub camera: bool,
    pub u_disk: bool,
}

impl Default for ExternalDevice {
    fn default() -> (r: ExternalDevice)
        ensures
            !r.camera,
            !r.u_disk,
    {
        ExternalDevice { camera: false, u_disk: false }
    }
}

/// A heater of which nothing is known.
pub open spec fn cold() -> Heater {
    let zero = Decimal { negative: false, digits: 0, power: 0 };
    Heater { temperature: zero, target: zero }
}

impl Default for StatusView {
    fn default() -> (r: StatusView)
        ensures
            r.machine_status.status == 0,
            r.machine_status.sub_status == 0,
            r.machine_status.exception_status@ == Seq::<i64>::empty(),
            r.machine_status.progress == 0,
            r.print_status.filename@ == ""@,
            r.print_status.uuid@ == ""@,
            r.print_status.current_layer == 0,
            r.print_status.total_layer == 0,
            r.print_status.remaining_time_sec == 0,
            r.print_status.progress == 0,
            r.extruder == cold(),
            r.heater_bed == cold(),
            r.external_device == (ExternalDevice { camera: false, u_disk: false }),
    {
        StatusView {
            machine_status: MachineStatus::default(),
            print_status: PrintStatus::default(),
            extruder: Heater::default(),
            heater_bed: Heater::default(),
            external_device: ExternalDevice::default(),
        }
    }
}

#[derive(Debug, Clone, Copy, PartialEq, Eq, Structural)]
pub enum MachineState {
    Initializing,
    Idle,
    Printing,
    FilamentOperating,
    AutoLeveling,
    PidCalibrating,
    ResonanceTesting,
    SelfChecking,
    Updating,
    Homing,
    FileTransferring,
    VideoComposing,
    ExtruderOperating,
    EmergencyStop,
    PowerLossRecovery,
    Unknown(i64),
}

pub open spec fn machine_state(code: i64) -> MachineState {
    if code == 0 {
        MachineState::Initializing
    } else if code == 1 {
        MachineState::Idle
    } else if code == 2 {
        MachineState::Printing
    } else if code == 3 || code == 4 {
        MachineState::FilamentOperating
    } else if code == 5 {
        MachineState::AutoLeveling
    } else if code == 6 {
        MachineState::PidCalibrating
    } else if code == 7 {
        MachineState::ResonanceTesting
    } else if code == 8 {
        MachineState::SelfChecking
    } else if code == 9 {
        MachineState::Updating
    } else if code == 10 {
        MachineState::Homing
    } else if code == 11 {
        MachineState::FileTransferring
    } else if code == 12 {
        MachineState::VideoComposing
    } else if code == 13 {
        MachineState::ExtruderOperating
    } else if code == 14 {
        MachineState::EmergencyStop
    } else if code == 15 {
        MachineState::PowerLossRecovery
    } else {
        MachineState::Unknown(code)
    }
}

impl MachineState {
    pub fn from_code(code: i64) -> (r: MachineState)
        ensures
            r == machine_state(code),
    {
        match code {
            0 => MachineState::Initializing,
            1 => MachineState::Idle,
            2 => MachineState::Printing,
            3 | 4 => MachineState::FilamentOperating,
            5 => MachineState::AutoLeveling,
            6 => MachineState::PidCalibrating,
            7 => MachineState::ResonanceTesting,
            8 => MachineState::SelfChecking,
            9 => MachineState::Updating,
            10 => MachineState::Homing,
            11 => MachineState::FileTransferring,
            12 => MachineState::VideoComposing,
            13 => MachineState::ExtruderOperating,
            14 => MachineState::EmergencyStop,
            15 => MachineState::PowerLossRecovery,
            other => MachineState::Unknown(other),
        }
    }
}

/// Result of `GET_ATTRIBUTES` (1001).
#[derive(Debug, Clone, PartialEq, Eq)]
pub struct Attributes {
    pub hostname: String,
    pub machine_model: String,
    pub sn: String,
    pub ip: String,
    pub software_version: SoftwareVersion,
    pub camera_connected: bool,
    pub max_video_connections: i64,
    pub video_connections: i64,
}

#[derive(Debug, Clone, PartialEq, Eq)]
pub struct SoftwareVersion {
    pub ota_version: String,
    pub mcu_version: String,
    pub soc_version: String,
}

/// Result of `GET_CANVAS_STATUS` (2005).
#[derive(Debug, Clone, PartialEq, Eq)]
pub struct CanvasStatus {
    pub canvas_info: CanvasInfo,
}

#[derive(Debug, Clone, PartialEq, Eq)]
pub struct CanvasInfo {
    pub active_canvas_id: i64,
    pub active_tray_id: i64,
    pub auto_refill: bool,
    pub canvas_list: Vec<Canvas>,
}

impl Default for CanvasInfo {
    fn default() -> (r: CanvasInfo)
        ensures
            r.active_canvas_id == 0,
            r.active_tray_id == 0,
            !r.auto_refill,
            r.canvas_list@ == Seq::<Canvas>::empty(),
    {
        CanvasInfo {
            active_canvas_id: 0,
            active_tray_id: 0,
            auto_refill: false,
            canvas_list: Vec::new(),
        }
    }
}

#[derive(Debug, Clone, PartialEq, Eq)]
pub struct Canvas {
    pub canvas_id: u32,
    pub connected: i64,
    pub tray_list: Vec<Tray>,
}

#[derive(Debug, Clone, PartialEq, Eq)]
pub struct Tray {
    pub tray_id: u32,
    pub brand: String,
    pub filament_type: String,
    pub filament_name: String,
    /// `#RRGGBB`, with the `#`.
    pub filament_color: String,
    pub min_nozzle_temp: i64,
    pub max_nozzle_temp: i64,
    pub status: i64,
}

impl Default for Tray {
    fn default() -> (r: Tray)
        ensures
            r.tray_id == 0,
            r.brand@ == ""@,
            r.filament_type@ == ""@,
            r.filament_name@ == ""@,
            r.filament_color@ == ""@,
            r.min_nozzle_temp == 0,
            r.max_nozzle_temp == 0,
            r.status == 0,
    {
        proof {
            reveal_strlit("");
        }
        Tray {
            tray_id: 0,
            brand: String::new(),
            filament_type: String::new(),
            filament_name: String::new(),
            filament_color: String::new(),
            min_nozzle_temp: 0,
            max_nozzle_temp: 0,
            status: 0,
        }
    }
}

#[derive(Debug, Clone, Copy, PartialEq, Eq, Structural)]
pub enum TrayState {
    Empty,
    Loaded,
    /// Feeding the nozzle right now.
    Active,
    Unknown(i64),
}

pub open spec fn tray_state(status: i64) -> TrayState {
    if status == 0 {
        TrayState::Empty
    } else if status == 1 {
        TrayState::Loaded
    } else if status == 2 {
        TrayState::Active
    } else {
        TrayState::Unknown(status)
    }
}

impl Tray {
    pub open spec fn holds_filament(self) -> bool {
        self.status == 1 || self.status == 2
    }

    pub fn state(&self) -> (r: TrayState)
        ensures
            r == tray_state(self.status),
    {
        match self.status {
            0 => TrayState::Empty,
            1 => TrayState::Loaded,
            2 => TrayState::Active,
            other => TrayState::Unknown(other),
        }
    }

    pub fn has_filament(&self) -> (r: bool)
        ensures
            r == self.holds_filament(),
    {
        match self.state() {
            TrayState::Loaded => true,
            TrayState::Active => true,
            _ => false,
        }
    }
}

/// Result of `GET_FILE_DETAIL` (1046). The filament is in milligrams.
#[derive(Debug, Clone, PartialEq, Eq)]
pub struct FileDetail {
    pub filename: String,
    pub size: i64,
    // Layer count arrives under any of three names, sometimes two at once.
    pub layer: Option<i64>,
    pub total_layers: Option<i64>,
    pub total_layer: Option<i64>,
    pub print_time: i64,
    /// In thousandths.
    pub total_filament_used: Decimal,
    pub color_map: Vec<ColorMapEntry>,
}

impl FileDetail {
    /// The layer count, by the first of its names that is there.
    pub open spec fn counted(self) -> Option<i64> {
        if self.total_layers is Some {
            self.total_layers
        } else if self.layer is Some {
            self.layer
        } else {
            self.total_layer
        }
    }

    pub fn layers(&self) -> (r: Option<i64>)
        ensures
            r == self.counted(),
    {
        if self.total_layers.is_some() {
            self.total_layers
        } else if self.layer.is_some() {
            self.layer
        } else {
            self.total_layer
        }
    }
}

#[derive(Debug, Clone, PartialEq, Eq)]
pub struct ColorMapEntry {
    pub color: String,
    /// Filament type as configured in the slicer, e.g. `PLA`.
    pub name: String,
    /// G-code tool index, not a tray: trays are chosen at start time via `slot_map`.
    pub t: u32,
}

/// The whole number in a JSON value, as far as there is one.
pub open spec fn whole_number(value: Value) -> Option<int> {
    match value {
        Value::Unsigned(n) => Some(
            if n > i64::MAX {
                i64::MAX as int
            } else {
                n as int
            },
        ),
        Value::Negative(n) => Some(n as int),
        Value::Real(number) => Some(number.truncated()),
        Value::Text(s) => text::parsed_signed(text::trim(s)),
        Value::Bool(b) => Some(
            if b {
                1
            } else {
                0
            },
        ),
        _ => None,
    }
}

/// Numbers from the printer are not reliably typed across firmware versions: an integer field
/// may arrive as `45.0`. Rejecting that would discard the whole view.
pub fn lenient_int(value: &Json) -> (r: Option<i64>)
    ensures
        match r {
            Some(n) => whole_number(value.value()) == Some(n as int),
            None => whole_number(value.value()) is None,
        },
{
    match value {
        Json::Unsigned(n) => {
            if *n > 0x7fff_ffff_ffff_ffff {
                Some(i64::MAX)
            } else {
                Some(*n as i64)
            }
        },
        Json::Negative(n) => Some(*n),
        Json::Real(number) => Some(number.truncate()),
        Json::Text(s) => {
            let chars = text::chars(s.as_str());
            text::parse_signed(text::trimmed(chars.as_slice()))
        },
        Json::Bool(b) => Some(
            if *b {
                1
            } else {
                0
            },
        ),
        _ => None,
    }
}

/// The number of layers is read from whichever name the printer gives it, in this order.
pub proof fn layers_are_read_under_any_name(detail: FileDetail)
    ensures
        detail.counted() is None <==> detail.total_layers is None && detail.layer is None
            && detail.total_layer is None,
        detail.total_layers is Some ==> detail.counted() == detail.total_layers,
        detail.total_layers is None && detail.layer is Some ==> detail.counted() == detail.layer,
        detail.total_layers is None && detail.layer is None ==> detail.counted()
            == detail.total_layer,
{
}

/// Numbers are read as they are, as text, as yes or no, or cut at the point.
pub proof fn numbers_are_read_in_any_form(n: u64, m: i64, s: Seq<char>, b: bool)
    ensures
        n <= i64::MAX ==> whole_number(Value::Unsigned(n)) == Some(n as int),
        whole_number(Value::Negative(m)) == Some(m as int),
        whole_number(Value::Text(s)) == text::parsed_signed(text::trim(s)),
        whole_number(Value::Bool(b)) == Some(
            if b {
                1int
            } else {
                0
            },
        ),
        whole_number(Value::Null) is None,
        whole_number(Value::List(seq![])) is None,
{
}

} // verus!

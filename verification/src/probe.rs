//! `printhub probe`: checks, one at a time, every printer endpoint the app relies on, and
//! prints what it found. Nothing is written to the printer.
//!
//! A [`Probe`] says which check comes next and takes what came of it.

use vstd::prelude::*;

use crate::camera;
use crate::cc2::client::{self, CommandError, LinkState};
use crate::cc2::discovery::{DiscoveryInfo, DISCOVERY_PORT};
use crate::cc2::methods::{self, Empty, FileRef, TaskPage};
use crate::cc2::model::{self, Attributes, Canvas, CanvasInfo, FileDetail, MachineState, StatusView};
use crate::cc2::model::{Tray, TrayState};
use crate::config::{self, Config, DEFAULT_ACCESS_CODE};
use crate::json::{self, Json, Value};
use crate::text;

verus! {

// ---------------------------------------------------------------------------------------------
// The report
// ---------------------------------------------------------------------------------------------

#[derive(Debug, Clone, Copy, PartialEq, Eq, Structural)]
pub enum Level {
    Fine,
    Warn,
    Fail,
}

impl Level {
    pub open spec fn name(self) -> Seq<char> {
        match self {
            Level::Fine => "ok"@,
            Level::Warn => "warn"@,
            Level::Fail => "FAIL"@,
        }
    }

    fn as_str(self) -> (r: &'static str)
        ensures
            r@ == self.name(),
    {
        match self {
            Level::Fine => "ok",
            Level::Warn => "warn",
            Level::Fail => "FAIL",
        }
    }
}

/// What came of one check.
#[derive(Debug, PartialEq, Eq)]
pub struct Line {
    pub level: Level,
    pub check: String,
    pub detail: String,
}

pub ghost struct Said {
    pub level: Level,
    pub check: Seq<char>,
    pub detail: Seq<char>,
}

/// A text with spaces after it, up to a width.
pub open spec fn left_justified(s: Seq<char>, width: int) -> Seq<char> {
    if s.len() < width {
        s + Seq::new((width - s.len()) as nat, |i: int| ' ')
    } else {
        s
    }
}

fn push_justified(out: &mut String, s: &str, width: usize)
    ensures
        final(out)@ == old(out)@ + left_justified(s@, width as int),
{
    let mut missing: usize = if s.unicode_len() < width {
        width - s.unicode_len()
    } else {
        0
    };
    let ghost spaces = missing;
    out.append(s);
    let ghost before = out@;
    assert(before =~= before + Seq::new(0, |i: int| ' '));
    while missing > 0
        invariant
            missing <= spaces,
            out@ == before + Seq::new((spaces - missing) as nat, |i: int| ' '),
        decreases missing,
    {
        out.push(' ');
        missing -= 1;
        assert(out@ =~= before + Seq::new((spaces - missing) as nat, |i: int| ' '));
    }
    assert(out@ =~= old(out)@ + left_justified(s@, width as int));
}

impl Line {
    pub open spec fn shown(self) -> Said {
        Said { level: self.level, check: self.check@, detail: self.detail@ }
    }

    /// The line as it is printed.
    pub fn text(&self) -> (r: String)
        ensures
            r@ == left_justified(self.level.name(), 5) + " "@ + left_justified(self.check@, 20)
                + " "@ + self.detail@,
    {
        let mut out = String::new();
        push_justified(&mut out, self.level.as_str(), 5);
        out.append(" ");
        push_justified(&mut out, self.check.as_str(), 20);
        out.append(" ");
        out.append(self.detail.as_str());
        out
    }
}

pub open spec fn said(lines: Seq<Line>) -> Seq<Said> {
    lines.map_values(|line: Line| line.shown())
}

#[derive(Debug)]
pub struct Report {
    pub lines: Vec<Line>,
    pub failed: bool,
}

/// Whether a check failed.
pub open spec fn any_failed(lines: Seq<Said>) -> bool {
    exists|i: int| 0 <= i < lines.len() && (#[trigger] lines[i]).level == Level::Fail
}

impl Report {
    pub open spec fn well_formed(self) -> bool {
        self.failed == any_failed(said(self.lines@))
    }

    pub fn new() -> (r: Report)
        ensures
            r.well_formed(),
            said(r.lines@) == Seq::<Said>::empty(),
    {
        let r = Report { lines: Vec::new(), failed: false };
        assert(said(r.lines@) =~= seq![]);
        r
    }

    fn line(&mut self, level: Level, check: &str, detail: String)
        requires
            old(self).well_formed(),
        ensures
            final(self).well_formed(),
            said(final(self).lines@) == said(old(self).lines@).push(
                Said { level, check: check@, detail: detail@ },
            ),
    {
        let ghost before = said(self.lines@);
        self.lines.push(Line { level, check: check.to_string(), detail });
        if level == Level::Fail {
            self.failed = true;
        }
        proof {
            let after = said(self.lines@);
            assert(after =~= before.push(Said { level, check: check@, detail: detail@ }));
            if any_failed(before) {
                let i = choose|i: int|
                    0 <= i < before.len() && (#[trigger] before[i]).level == Level::Fail;
                assert(after[i].level == Level::Fail);
            }
            if level == Level::Fail {
                assert(after[before.len() as int].level == Level::Fail);
            }
            if any_failed(after) && level != Level::Fail {
                let i = choose|i: int|
                    0 <= i < after.len() && (#[trigger] after[i]).level == Level::Fail;
                assert(before[i].level == Level::Fail);
            }
        }
    }

    pub fn ok(&mut self, check: &str, detail: String)
        requires
            old(self).well_formed(),
        ensures
            final(self).well_formed(),
            said(final(self).lines@) == said(old(self).lines@).push(
                Said { level: Level::Fine, check: check@, detail: detail@ },
            ),
    {
        self.line(Level::Fine, check, detail);
    }

    pub fn warn(&mut self, check: &str, detail: String)
        requires
            old(self).well_formed(),
        ensures
            final(self).well_formed(),
            said(final(self).lines@) == said(old(self).lines@).push(
                Said { level: Level::Warn, check: check@, detail: detail@ },
            ),
    {
        self.line(Level::Warn, check, detail);
    }

    pub fn fail(&mut self, check: &str, detail: String)
        requires
            old(self).well_formed(),
        ensures
            final(self).well_formed(),
            said(final(self).lines@) == said(old(self).lines@).push(
                Said { level: Level::Fail, check: check@, detail: detail@ },
            ),
    {
        self.line(Level::Fail, check, detail);
    }

    /// Whether nothing failed.
    pub fn finish(&self) -> (r: bool)
        requires
            self.well_formed(),
        ensures
            r == !any_failed(said(self.lines@)),
    {
        !self.failed
    }
}

// ---------------------------------------------------------------------------------------------
// Details
// ---------------------------------------------------------------------------------------------

/// The name of a state, as `Debug` writes it.
pub open spec fn machine_debug(state: MachineState) -> Seq<char> {
    match state {
        MachineState::Initializing => "Initializing"@,
        MachineState::Idle => "Idle"@,
        MachineState::Printing => "Printing"@,
        MachineState::FilamentOperating => "FilamentOperating"@,
        MachineState::AutoLeveling => "AutoLeveling"@,
        MachineState::PidCalibrating => "PidCalibrating"@,
        MachineState::ResonanceTesting => "ResonanceTesting"@,
        MachineState::SelfChecking => "SelfChecking"@,
        MachineState::Updating => "Updating"@,
        MachineState::Homing => "Homing"@,
        MachineState::FileTransferring => "FileTransferring"@,
        MachineState::VideoComposing => "VideoComposing"@,
        MachineState::ExtruderOperating => "ExtruderOperating"@,
        MachineState::EmergencyStop => "EmergencyStop"@,
        MachineState::PowerLossRecovery => "PowerLossRecovery"@,
        MachineState::Unknown(code) => "Unknown("@ + text::decimal_int(code as int) + ")"@,
    }
}

fn push_machine(out: &mut String, state: MachineState)
    ensures
        final(out)@ == old(out)@ + machine_debug(state),
{
    let name = match state {
        MachineState::Initializing => "Initializing",
        MachineState::Idle => "Idle",
        MachineState::Printing => "Printing",
        MachineState::FilamentOperating => "FilamentOperating",
        MachineState::AutoLeveling => "AutoLeveling",
        MachineState::PidCalibrating => "PidCalibrating",
        MachineState::ResonanceTesting => "ResonanceTesting",
        MachineState::SelfChecking => "SelfChecking",
        MachineState::Updating => "Updating",
        MachineState::Homing => "Homing",
        MachineState::FileTransferring => "FileTransferring",
        MachineState::VideoComposing => "VideoComposing",
        MachineState::ExtruderOperating => "ExtruderOperating",
        MachineState::EmergencyStop => "EmergencyStop",
        MachineState::PowerLossRecovery => "PowerLossRecovery",
        MachineState::Unknown(code) => {
            out.append("Unknown(");
            text::push_decimal_int(out, code);
            out.append(")");
            assert(out@ =~= old(out)@ + machine_debug(state));
            return;
        },
    };
    out.append(name);
}

pub open spec fn link_debug(link: LinkState) -> Seq<char> {
    match link {
        LinkState::Discovering(reason) => "Discovering("@ + config::quoted(reason@) + ")"@,
        LinkState::Connecting => "Connecting"@,
        LinkState::Rejected(reason) => "Rejected("@ + config::quoted(reason@) + ")"@,
        LinkState::Registered => "Registered"@,
        LinkState::Disconnected(reason) => "Disconnected("@ + config::quoted(reason@) + ")"@,
    }
}

fn link_text(link: &LinkState) -> (r: String)
    ensures
        r@ == link_debug(*link),
{
    let (name, reason) = match link {
        LinkState::Connecting => {
            return "Connecting".to_string();
        },
        LinkState::Registered => {
            return "Registered".to_string();
        },
        LinkState::Discovering(reason) => ("Discovering(", reason),
        LinkState::Rejected(reason) => ("Rejected(", reason),
        LinkState::Disconnected(reason) => ("Disconnected(", reason),
    };
    let mut out = name.to_string();
    out.append(config::quote(reason.as_str()).as_str());
    out.append(")");
    out
}

pub open spec fn discovery_text(info: DiscoveryInfo) -> Seq<char> {
    info.machine_model@ + " "@ + config::quoted(info.host_name@) + ", serial "@ + info.sn@
}

fn describe_discovery(info: &DiscoveryInfo) -> (r: String)
    ensures
        r@ == discovery_text(*info),
{
    let mut out = info.machine_model.clone();
    out.append(" ");
    out.append(config::quote(info.host_name.as_str()).as_str());
    out.append(", serial ");
    out.append(info.sn.as_str());
    out
}

pub open spec fn attributes_text(attributes: Attributes) -> Seq<char> {
    "firmware "@ + attributes.software_version.ota_version@ + ", camera connected "@
        + config::bool_text(attributes.camera_connected) + ", video connections "@
        + text::decimal_int(attributes.video_connections as int) + "/"@ + text::decimal_int(
        attributes.max_video_connections as int,
    )
}

fn describe_attributes(attributes: &Attributes) -> (r: String)
    ensures
        r@ == attributes_text(*attributes),
{
    let mut out = "firmware ".to_string();
    out.append(attributes.software_version.ota_version.as_str());
    out.append(", camera connected ");
    out.append(
        if attributes.camera_connected {
            "true"
        } else {
            "false"
        },
    );
    out.append(", video connections ");
    text::push_decimal_int(&mut out, attributes.video_connections);
    out.append("/");
    text::push_decimal_int(&mut out, attributes.max_video_connections);
    out
}

pub open spec fn status_text(status: StatusView) -> Seq<char> {
    machine_debug(model::machine_state(status.machine_status.status)) + " (sub-status "@
        + text::decimal_int(status.machine_status.sub_status as int) + "), progress "@
        + text::decimal_int(status.machine_status.progress as int) + "%, layer "@
        + text::decimal_int(status.print_status.current_layer as int) + "/"@ + text::decimal_int(
        status.print_status.total_layer as int,
    ) + ", file "@ + config::quoted(status.print_status.filename@)
}

fn describe_status(status: &StatusView) -> (r: String)
    ensures
        r@ == status_text(*status),
{
    let mut out = String::new();
    push_machine(&mut out, status.machine_status.state());
    out.append(" (sub-status ");
    text::push_decimal_int(&mut out, status.machine_status.sub_status);
    out.append("), progress ");
    text::push_decimal_int(&mut out, status.machine_status.progress);
    out.append("%, layer ");
    text::push_decimal_int(&mut out, status.print_status.current_layer);
    out.append("/");
    text::push_decimal_int(&mut out, status.print_status.total_layer);
    out.append(", file ");
    out.append(config::quote(status.print_status.filename.as_str()).as_str());
    assert(out@ =~= status_text(*status));
    out
}

pub open spec fn layers_debug(layers: Option<i64>) -> Seq<char> {
    match layers {
        Some(layers) => "Some("@ + text::decimal_int(layers as int) + ")"@,
        None => "None"@,
    }
}

pub open spec fn file_text(file: Seq<char>, detail: FileDetail) -> Seq<char> {
    config::quoted(file) + ": layers "@ + layers_debug(detail.counted()) + ", print time "@
        + text::decimal_int(detail.print_time as int) + "s, filament "@
        + detail.total_filament_used.one_place()
}

fn describe_file(file: &str, detail: &FileDetail) -> (r: String)
    ensures
        r@ == file_text(file@, *detail),
{
    let mut out = config::quote(file);
    out.append(": layers ");
    match detail.layers() {
        Some(layers) => {
            out.append("Some(");
            text::push_decimal_int(&mut out, layers);
            out.append(")");
        },
        None => {
            out.append("None");
        },
    }
    out.append(", print time ");
    text::push_decimal_int(&mut out, detail.print_time);
    out.append("s, filament ");
    detail.total_filament_used.push_one_place(&mut out);
    assert(out@ =~= file_text(file@, *detail));
    out
}

pub open spec fn tray_text(tray: Tray) -> Seq<char> {
    (match model::tray_state(tray.status) {
        TrayState::Empty => "empty"@,
        TrayState::Loaded => "loaded"@,
        TrayState::Active => "active"@,
        TrayState::Unknown(code) => "unknown status "@ + text::decimal_int(code as int),
    }) + ": "@ + tray.brand@ + " "@ + tray.filament_type@ + " "@ + tray.filament_color@
}

pub open spec fn tray_check(canvas_id: u32, tray: Tray) -> Seq<char> {
    "canvas "@ + text::decimal(canvas_id as nat) + " tray "@ + text::decimal(tray.tray_id as nat)
}

pub open spec fn tray_said(canvas_id: u32, tray: Tray) -> Said {
    Said { level: Level::Fine, check: tray_check(canvas_id, tray), detail: tray_text(tray) }
}

fn describe_tray(tray: &Tray) -> (r: String)
    ensures
        r@ == tray_text(*tray),
{
    let mut out = match tray.state() {
        TrayState::Empty => "empty".to_string(),
        TrayState::Loaded => "loaded".to_string(),
        TrayState::Active => "active".to_string(),
        TrayState::Unknown(code) => {
            let mut out = "unknown status ".to_string();
            text::push_decimal_int(&mut out, code);
            out
        },
    };
    out.append(": ");
    out.append(tray.brand.as_str());
    out.append(" ");
    out.append(tray.filament_type.as_str());
    out.append(" ");
    out.append(tray.filament_color.as_str());
    out
}

fn name_tray(canvas_id: u32, tray: &Tray) -> (r: String)
    ensures
        r@ == tray_check(canvas_id, *tray),
{
    let mut out = "canvas ".to_string();
    text::push_decimal(&mut out, canvas_id as u64);
    out.append(" tray ");
    text::push_decimal(&mut out, tray.tray_id as u64);
    out
}

/// What is said of the trays of some CANVAS units.
pub open spec fn trays_said(units: Seq<Canvas>) -> Seq<Said>
    decreases units.len(),
{
    if units.len() == 0 {
        seq![]
    } else {
        trays_said(units.drop_last()) + units.last().tray_list@.map_values(
            |tray: Tray| tray_said(units.last().canvas_id, tray),
        )
    }
}

pub open spec fn frame_text(frame: Seq<u8>) -> Seq<char> {
    "one frame, "@ + text::decimal(frame.len()) + " bytes, "@ + if frame.len() >= 2 && frame[0]
        == 0xFF && frame[1] == 0xD8 {
        "JPEG"@
    } else {
        "not a JPEG"@
    }
}

pub fn describe_frame(frame: &[u8]) -> (r: String)
    ensures
        r@ == frame_text(frame@),
{
    let mut out = "one frame, ".to_string();
    text::push_decimal(&mut out, frame.len() as u64);
    out.append(" bytes, ");
    out.append(
        if camera::is_jpeg(frame) {
            "JPEG"
        } else {
            "not a JPEG"
        },
    );
    out
}

// ---------------------------------------------------------------------------------------------
// The checks
// ---------------------------------------------------------------------------------------------

/// The check that comes next.
#[derive(Debug, Clone, Copy, PartialEq, Eq, Structural)]
pub enum Step {
    Resolve,
    Discover,
    UploadPort,
    Register,
    Attributes,
    Status,
    FileDetail,
    TaskList,
    Canvas,
    Camera,
    Finished,
}

impl Step {
    /// The method that a check asks of the printer, if it asks anything.
    pub open spec fn asks(self) -> Option<u32> {
        match self {
            Step::Attributes => Some(methods::GET_ATTRIBUTES),
            Step::FileDetail => Some(methods::GET_FILE_DETAIL),
            Step::TaskList => Some(methods::PRINT_TASK_LIST),
            Step::Canvas => Some(methods::GET_CANVAS_STATUS),
            _ => None,
        }
    }
}

/// Methods that read and change nothing.
pub open spec fn only_reads(method: u32) -> bool {
    ||| method == methods::GET_ATTRIBUTES
    ||| method == methods::GET_STATUS
    ||| method == methods::PRINT_TASK_LIST
    ||| method == methods::GET_FILE_DETAIL
    ||| method == methods::GET_CANVAS_STATUS
}

/// Tasks of the history that are asked for.
pub const TASKS_ASKED: i64 = 3;

#[derive(Debug)]
pub struct Probe {
    pub step: Step,
    pub report: Report,
    /// Known before the upload port is checked.
    pub serial: String,
    /// What prints, if anything: its details are asked for.
    pub printing_file: String,
}

/// The longest piece of the task list that is printed.
pub const TASK_LIST_LENGTH: usize = 900;

pub open spec fn fine(check: Seq<char>, detail: Seq<char>) -> Said {
    Said { level: Level::Fine, check, detail }
}

pub open spec fn warned(check: Seq<char>, detail: Seq<char>) -> Said {
    Said { level: Level::Warn, check, detail }
}

pub open spec fn failed(check: Seq<char>, detail: Seq<char>) -> Said {
    Said { level: Level::Fail, check, detail }
}

/// What is said of the printer that answered.
pub open spec fn discovered_said(info: DiscoveryInfo, access_code: Seq<char>) -> Seq<Said> {
    let found = seq![
        fine("discovery"@, discovery_text(info)),
        if info.lan_status == 1 {
            fine("lan only mode"@, "enabled"@)
        } else {
            failed(
                "lan only mode"@,
                "disabled; enable it under Settings > Network on the printer"@,
            )
        },
    ];
    if info.token_status == 1 && access_code == DEFAULT_ACCESS_CODE@ {
        found.push(
            warned(
                "access code"@,
                "the printer has one set but PRINTER_ACCESS_CODE is not configured"@,
            ),
        )
    } else {
        found
    }
}

pub open spec fn undiscovered_said(err: Seq<char>) -> Said {
    warned(
        "discovery"@,
        err + "; set PRINTER_SN if UDP "@ + text::decimal(DISCOVERY_PORT as nat) + " is filtered"@,
    )
}

/// The serial number: the configured one, or else the one that was discovered.
pub open spec fn known_serial(
    configured: Option<String>,
    found: Result<DiscoveryInfo, String>,
) -> Option<Seq<char>> {
    match (configured, found) {
        (Some(serial), _) => Some(serial@),
        (None, Ok(info)) => Some(info.sn@),
        (None, Err(_)) => None,
    }
}

impl Probe {
    pub open spec fn well_formed(self) -> bool {
        self.report.well_formed()
    }

    pub open spec fn lines(self) -> Seq<Said> {
        said(self.report.lines@)
    }

    /// The same but for the step and the report.
    pub open spec fn keeps(self, before: Probe) -> bool {
        &&& self.serial == before.serial
        &&& self.printing_file == before.printing_file
    }

    pub fn start() -> (r: Probe)
        ensures
            r.well_formed(),
            r.step == Step::Resolve,
            r.lines() == Seq::<Said>::empty(),
            r.serial@ == ""@,
            r.printing_file@ == ""@,
    {
        Probe {
            step: Step::Resolve,
            report: Report::new(),
            serial: "".to_string(),
            printing_file: "".to_string(),
        }
    }

    /// Takes the printer's address, as text, or why there is none.
    pub fn resolved(&mut self, host: &str, ip: Result<String, String>)
        requires
            old(self).well_formed(),
            old(self).step == Step::Resolve,
        ensures
            final(self).well_formed(),
            final(self).keeps(*old(self)),
            match ip {
                Ok(ip) => final(self).step == Step::Discover && final(self).lines() == old(
                    self,
                ).lines().push(fine("resolve"@, host@ + " is "@ + ip@)),
                Err(err) => final(self).step == Step::Finished && final(self).lines() == old(
                    self,
                ).lines().push(failed("resolve"@, err@)),
            },
    {
        match ip {
            Ok(ip) => {
                let mut detail = host.to_string();
                detail.append(" is ");
                detail.append(ip.as_str());
                self.report.ok("resolve", detail);
                self.step = Step::Discover;
            },
            Err(err) => {
                self.report.fail("resolve", err);
                self.step = Step::Finished;
            },
        }
    }

    /// Takes what the printer answered to discovery, or why it did not.
    pub fn discovered(&mut self, config: &Config, found: Result<DiscoveryInfo, String>)
        requires
            old(self).well_formed(),
            old(self).step == Step::Discover,
        ensures
            final(self).well_formed(),
            final(self).printing_file == old(self).printing_file,
            ({
                let heard = old(self).lines() + match found {
                    Ok(info) => discovered_said(info, config.printer_access_code@),
                    Err(err) => seq![undiscovered_said(err@)],
                };
                match known_serial(config.printer_sn, found) {
                    Some(serial) => {
                        &&& final(self).step == Step::UploadPort
                        &&& final(self).lines() == heard
                        &&& final(self).serial@ == serial
                    },
                    None => {
                        &&& final(self).step == Step::Finished
                        &&& final(self).serial == old(self).serial
                        &&& final(self).lines() == heard.push(
                            failed("serial number"@, "not discovered and PRINTER_SN is not set"@),
                        )
                    },
                }
            }),
    {
        let ghost before = self.lines();
        let heard: Option<String> = match &found {
            Ok(info) => {
                self.report.ok("discovery", describe_discovery(info));
                if info.lan_only() {
                    self.report.ok("lan only mode", "enabled".to_string());
                } else {
                    self.report.fail(
                        "lan only mode",
                        "disabled; enable it under Settings > Network on the printer".to_string(),
                    );
                }
                if info.access_code_set() && text::same(
                    config.printer_access_code.as_str(),
                    DEFAULT_ACCESS_CODE,
                ) {
                    self.report.warn(
                        "access code",
                        "the printer has one set but PRINTER_ACCESS_CODE is not configured".to_string(),
                    );
                }
                assert(self.lines() =~= before + discovered_said(
                    *info,
                    config.printer_access_code@,
                ));
                Some(info.sn.clone())
            },
            Err(err) => {
                let mut detail = err.clone();
                detail.append("; set PRINTER_SN if UDP ");
                text::push_decimal(&mut detail, DISCOVERY_PORT as u64);
                detail.append(" is filtered");
                self.report.warn("discovery", detail);
                assert(self.lines() =~= before + seq![undiscovered_said(err@)]);
                None
            },
        };
        let serial = match &config.printer_sn {
            Some(serial) => Some(serial.clone()),
            None => heard,
        };
        match serial {
            Some(serial) => {
                self.serial = serial;
                self.step = Step::UploadPort;
            },
            None => {
                self.report.fail(
                    "serial number",
                    "not discovered and PRINTER_SN is not set".to_string(),
                );
                self.step = Step::Finished;
            },
        }
    }

    /// Takes whether the upload port at `addr` accepts connections: a refusal, or `None` for no
    /// answer at all.
    pub fn upload_port(&mut self, addr: &str, connected: Result<(), Option<String>>)
        requires
            old(self).well_formed(),
            old(self).step == Step::UploadPort,
        ensures
            final(self).well_formed(),
            final(self).keeps(*old(self)),
            final(self).step == Step::Register,
            final(self).lines() == old(self).lines().push(
                match connected {
                    Ok(()) => fine("upload port"@, addr@ + " accepts connections"@),
                    Err(Some(err)) => failed("upload port"@, addr@ + ": "@ + err@),
                    Err(None) => failed("upload port"@, addr@ + ": "@ + "no answer within 3s"@),
                },
            ),
    {
        let mut detail = addr.to_string();
        match connected {
            Ok(()) => {
                detail.append(" accepts connections");
                self.report.ok("upload port", detail);
            },
            Err(err) => {
                detail.append(": ");
                match err {
                    Some(err) => {
                        detail.append(err.as_str());
                    },
                    None => {
                        detail.append("no answer within 3s");
                    },
                }
                self.report.fail("upload port", detail);
            },
        }
        self.step = Step::Register;
    }

    /// Takes the client id under which the printer registered us, or the state the link was in
    /// when the wait was given up.
    pub fn registered(&mut self, registered: Result<String, LinkState>)
        requires
            old(self).well_formed(),
            old(self).step == Step::Register,
        ensures
            final(self).well_formed(),
            final(self).keeps(*old(self)),
            match registered {
                Ok(client_id) => final(self).step == Step::Attributes && final(self).lines() == old(
                    self,
                ).lines().push(fine("mqtt register"@, "client id "@ + client_id@)),
                Err(link) => final(self).step == Step::Finished && final(self).lines() == old(
                    self,
                ).lines().push(failed("mqtt register"@, "gave up in state "@ + link_debug(link))),
            },
    {
        match registered {
            Ok(client_id) => {
                let mut detail = "client id ".to_string();
                detail.append(client_id.as_str());
                self.report.ok("mqtt register", detail);
                self.step = Step::Attributes;
            },
            Err(link) => {
                let mut detail = "gave up in state ".to_string();
                detail.append(link_text(&link).as_str());
                self.report.fail("mqtt register", detail);
                self.step = Step::Finished;
            },
        }
    }

    pub fn attributes(&mut self, answer: Result<Attributes, CommandError>)
        requires
            old(self).well_formed(),
            old(self).step == Step::Attributes,
        ensures
            final(self).well_formed(),
            final(self).keeps(*old(self)),
            final(self).step == Step::Status,
            final(self).lines() == old(self).lines().push(
                match answer {
                    Ok(attributes) => fine("attributes"@, attributes_text(attributes)),
                    Err(err) => failed("attributes"@, err.text()),
                },
            ),
    {
        match answer {
            Ok(attributes) => {
                self.report.ok("attributes", describe_attributes(&attributes));
            },
            Err(err) => {
                self.report.fail("attributes", err.message());
            },
        }
        self.step = Step::Status;
    }

    /// Takes the first full status, if one came in time. The status stream carries no layer
    /// total; 1046 is where a file's own metadata lives.
    pub fn status(&mut self, status: Option<StatusView>)
        requires
            old(self).well_formed(),
            old(self).step == Step::Status,
            old(self).printing_file@ == ""@,
        ensures
            final(self).well_formed(),
            final(self).serial == old(self).serial,
            match status {
                Some(status) => {
                    &&& final(self).printing_file@ == status.print_status.filename@
                    &&& final(self).lines() == old(self).lines().push(
                        fine("status"@, status_text(status)),
                    )
                },
                None => {
                    &&& final(self).printing_file == old(self).printing_file
                    &&& final(self).lines() == old(self).lines().push(
                        failed("status"@, "no full status frame within 5s"@),
                    )
                },
            },
            final(self).step == if final(self).printing_file@.len() == 0 {
                Step::TaskList
            } else {
                Step::FileDetail
            },
    {
        match status {
            Some(status) => {
                self.report.ok("status", describe_status(&status));
                self.printing_file = status.print_status.filename.clone();
            },
            None => {
                self.report.fail("status", "no full status frame within 5s".to_string());
            },
        }
        self.step = if self.printing_file.as_str().is_empty() {
            Step::TaskList
        } else {
            Step::FileDetail
        };
    }

    pub fn file_detail(&mut self, answer: Result<FileDetail, CommandError>)
        requires
            old(self).well_formed(),
            old(self).step == Step::FileDetail,
        ensures
            final(self).well_formed(),
            final(self).keeps(*old(self)),
            final(self).step == Step::TaskList,
            final(self).lines() == old(self).lines().push(
                match answer {
                    Ok(detail) => fine(
                        "file detail"@,
                        file_text(old(self).printing_file@, detail),
                    ),
                    Err(err) => warned(
                        "file detail"@,
                        "1046 for "@ + config::quoted(old(self).printing_file@) + ": "@
                            + err.text(),
                    ),
                },
            ),
    {
        match answer {
            Ok(detail) => {
                let said = describe_file(self.printing_file.as_str(), &detail);
                self.report.ok("file detail", said);
            },
            Err(err) => {
                let mut detail = "1046 for ".to_string();
                detail.append(config::quote(self.printing_file.as_str()).as_str());
                detail.append(": ");
                detail.append(err.message().as_str());
                self.report.warn("file detail", detail);
            },
        }
        self.step = Step::TaskList;
    }

    /// Takes the task list as the JSON it came as. On firmware 02.01.00.00 a finished print
    /// leaves no trace in the status: idle, sub-status 0, filename cleared. The task history is
    /// the only record of how a print ended.
    pub fn task_list(&mut self, answer: Result<String, CommandError>)
        requires
            old(self).well_formed(),
            old(self).step == Step::TaskList,
        ensures
            final(self).well_formed(),
            final(self).keeps(*old(self)),
            final(self).step == Step::Canvas,
            final(self).lines() == old(self).lines().push(
                match answer {
                    Ok(raw) => fine(
                        "task list"@,
                        if raw@.len() > TASK_LIST_LENGTH {
                            raw@.take(TASK_LIST_LENGTH as int)
                        } else {
                            raw@
                        },
                    ),
                    Err(err) => warned("task list"@, "1036: "@ + err.text()),
                },
            ),
    {
        match answer {
            Ok(raw) => {
                let chars = text::chars(raw.as_str());
                if chars.len() > TASK_LIST_LENGTH {
                    let cut = vstd::slice::slice_subrange(chars.as_slice(), 0, TASK_LIST_LENGTH);
                    assert(cut@ =~= raw@.take(TASK_LIST_LENGTH as int));
                    self.report.ok("task list", text::string(cut));
                } else {
                    self.report.ok("task list", raw);
                }
            },
            Err(err) => {
                let mut detail = "1036: ".to_string();
                detail.append(err.message().as_str());
                self.report.warn("task list", detail);
            },
        }
        self.step = Step::Canvas;
    }

    fn unit(&mut self, unit: &Canvas)
        requires
            old(self).well_formed(),
        ensures
            final(self).well_formed(),
            final(self).keeps(*old(self)),
            final(self).step == old(self).step,
            final(self).lines() == old(self).lines() + unit.tray_list@.map_values(
                |tray: Tray| tray_said(unit.canvas_id, tray),
            ),
    {
        let ghost before = self.lines();
        let ghost all = unit.tray_list@.map_values(|tray: Tray| tray_said(unit.canvas_id, tray));
        let mut i: usize = 0;
        assert(before + all.take(0) =~= before);
        while i < unit.tray_list.len()
            invariant
                i <= unit.tray_list@.len(),
                self.well_formed(),
                self.keeps(*old(self)),
                self.step == old(self).step,
                all == unit.tray_list@.map_values(|tray: Tray| tray_said(unit.canvas_id, tray)),
                self.lines() == before + all.take(i as int),
            decreases unit.tray_list.len() - i,
        {
            let tray = &unit.tray_list[i];
            let name = name_tray(unit.canvas_id, tray);
            self.report.ok(name.as_str(), describe_tray(tray));
            assert(all[i as int] == tray_said(unit.canvas_id, *tray));
            assert(before + all.take(i + 1) =~= (before + all.take(i as int)).push(all[i as int]));
            i += 1;
        }
        assert(all.take(i as int) =~= all);
    }

    pub fn canvas(&mut self, answer: Result<CanvasInfo, CommandError>)
        requires
            old(self).well_formed(),
            old(self).step == Step::Canvas,
        ensures
            final(self).well_formed(),
            final(self).keeps(*old(self)),
            final(self).step == Step::Camera,
            final(self).lines() == old(self).lines() + match answer {
                Ok(canvas) => if canvas.canvas_list@.len() == 0 {
                    seq![warned("canvas"@, "no CANVAS unit reported"@)]
                } else {
                    trays_said(canvas.canvas_list@)
                },
                Err(err) => seq![failed("canvas"@, err.text())],
            },
    {
        let ghost before = self.lines();
        match answer {
            Ok(canvas) => {
                if canvas.canvas_list.len() == 0 {
                    self.report.warn("canvas", "no CANVAS unit reported".to_string());
                    assert(self.lines() =~= before + seq![
                        warned("canvas"@, "no CANVAS unit reported"@),
                    ]);
                } else {
                    let mut i: usize = 0;
                    assert(canvas.canvas_list@.take(0) =~= seq![]);
                    assert(before + trays_said(canvas.canvas_list@.take(0)) =~= before);
                    while i < canvas.canvas_list.len()
                        invariant
                            i <= canvas.canvas_list@.len(),
                            self.well_formed(),
                            self.keeps(*old(self)),
                            self.lines() == before + trays_said(
                                canvas.canvas_list@.take(i as int),
                            ),
                        decreases canvas.canvas_list.len() - i,
                    {
                        let ghost said_so_far = trays_said(canvas.canvas_list@.take(i as int));
                        self.unit(&canvas.canvas_list[i]);
                        proof {
                            let more = canvas.canvas_list@.take(i + 1);
                            assert(more.drop_last() =~= canvas.canvas_list@.take(i as int));
                            assert(self.lines() =~= before + trays_said(more));
                        }
                        i += 1;
                    }
                    assert(canvas.canvas_list@.take(i as int) =~= canvas.canvas_list@);
                }
            },
            Err(err) => {
                self.report.fail("canvas", err.message());
                assert(self.lines() =~= before + seq![failed("canvas"@, err.text())]);
            },
        }
        self.step = Step::Camera;
    }

    /// Takes a frame of the camera, or why there is none. Nothing is tried to make the camera
    /// deliver: that would take a command.
    pub fn camera(&mut self, frame: Result<Vec<u8>, String>)
        requires
            old(self).well_formed(),
            old(self).step == Step::Camera,
        ensures
            final(self).well_formed(),
            final(self).keeps(*old(self)),
            final(self).step == Step::Finished,
            final(self).lines() == old(self).lines().push(
                match frame {
                    Ok(frame) => fine("camera"@, frame_text(frame@)),
                    Err(err) => failed("camera"@, err@),
                },
            ),
    {
        match frame {
            Ok(frame) => self.report.ok("camera", describe_frame(frame.as_slice())),
            Err(err) => self.report.fail("camera", err),
        }
        self.step = Step::Finished;
    }
}

impl Probe {
    /// What to send to the printer for the check that comes next: a method and its parameters.
    pub fn request(&self) -> (r: Option<(u32, Json)>)
        ensures
            match r {
                Some((method, params)) => {
                    &&& self.step.asks() == Some(method)
                    &&& params.value() == match self.step {
                        Step::FileDetail => Value::Object(
                            seq![
                                ("storage_media"@, Value::Text("local"@)),
                                ("filename"@, Value::Text(self.printing_file@)),
                            ],
                        ),
                        Step::TaskList => Value::Object(
                            seq![
                                ("page"@, json::whole(1)),
                                ("page_size"@, json::whole(TASKS_ASKED as int)),
                            ],
                        ),
                        _ => Value::Object(seq![]),
                    }
                },
                None => self.step.asks() is None,
            },
    {
        match self.step {
            Step::Attributes => Some((methods::GET_ATTRIBUTES, Empty {  }.params())),
            Step::FileDetail => {
                let file = FileRef::local(self.printing_file.as_str());
                Some((methods::GET_FILE_DETAIL, file.params()))
            },
            Step::TaskList => {
                let page = TaskPage { page: 1, page_size: TASKS_ASKED };
                Some((methods::PRINT_TASK_LIST, page.params()))
            },
            Step::Canvas => Some((methods::GET_CANVAS_STATUS, Empty {  }.params())),
            _ => None,
        }
    }
}

/// The probe changes nothing on the printer: whatever its checks ask, and whatever the session
/// under it asks in whatever phase, only reads.
pub proof fn the_probe_only_reads(step: Step, phase: client::Phase, event: client::SessionEvent)
    ensures
        step.asks() matches Some(method) ==> only_reads(method),
        client::phase_after(phase, event).1 matches client::SessionAction::Query(method)
            ==> only_reads(method),
{
}

/// One failed check makes the report fail, whatever comes after it.
pub proof fn a_failure_is_not_forgotten(before: Seq<Said>, later: Seq<Said>)
    requires
        any_failed(before),
    ensures
        any_failed(before + later),
{
    let i = choose|i: int| 0 <= i < before.len() && (#[trigger] before[i]).level == Level::Fail;
    assert((before + later)[i].level == Level::Fail);
}

} // verus!

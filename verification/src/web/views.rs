//! Display-ready values for templates, so templates hold no formatting logic.

use vstd::prelude::*;

use crate::calendar;
use crate::cc2::model::printing_sub_status as sub;
use crate::cc2::model::{self, Canvas, CanvasInfo, Heater, MachineState, StatusView, Tray, TrayState};
use crate::cc2::{LinkState, PrinterSnapshot};
use crate::inventory::{self, Binding, Spool};
use crate::jobs::MountedNozzle;
use crate::num;
use crate::text;
use crate::zone::{Zone, FIRST_SECOND, LAST_SECOND};

pub use crate::inventory::tray_label;

verus! {

// ---------------------------------------------------------------------------------------------
// Small texts
// ---------------------------------------------------------------------------------------------

/// How long, rounded up to the minute.
pub open spec fn duration_text(seconds: int) -> Seq<char> {
    let minutes = num::truncated(seconds + 59, 60);
    let h = num::truncated(minutes, 60);
    let m = minutes - 60 * h;
    if h == 0 && m == 0 {
        "under a minute"@
    } else if h == 0 {
        text::decimal_int(m) + " min"@
    } else if m == 0 {
        text::decimal_int(h) + " h"@
    } else {
        text::decimal_int(h) + " h "@ + text::decimal_int(m) + " min"@
    }
}

/// How long, rounded up to the minute.
pub fn long_duration(seconds: i128) -> (r: String)
    requires
        i128::MIN + 1_000 <= seconds <= i128::MAX - 1_000,
    ensures
        r@ == duration_text(seconds as int),
{
    let whole: i128 = seconds + 59;
    let minutes: i128 = if whole >= 0 {
        whole / 60
    } else {
        -((-whole) / 60)
    };
    let h: i128 = if minutes >= 0 {
        minutes / 60
    } else {
        -((-minutes) / 60)
    };
    let m: i128 = minutes - 60 * h;
    if h == 0 && m == 0 {
        return "under a minute".to_string();
    }
    let mut out = String::new();
    if h == 0 {
        text::push_decimal_int_large(&mut out, m);
        out.append(" min");
    } else {
        text::push_decimal_int_large(&mut out, h);
        out.append(" h");
        if m != 0 {
            out.append(" ");
            text::push_decimal_int_large(&mut out, m);
            out.append(" min");
        }
    }
    proof {
        reveal_strlit(" h");
        reveal_strlit(" ");
        reveal_strlit(" h ");
        assert(" h "@ =~= " h"@ + " "@);
        assert(out@ =~= duration_text(seconds as int));
    }
    out
}

pub fn human_duration(seconds: i64) -> (r: String)
    ensures
        r@ == duration_text(seconds as int),
{
    long_duration(seconds as i128)
}

/// A moment on the clock of the zone, to the minute; nothing where the calendar does not reach.
pub open spec fn time_text(unix: int, zone: Zone) -> Seq<char> {
    if FIRST_SECOND <= unix <= LAST_SECOND {
        let date = zone.date_at(unix);
        let (hour, minute) = zone.time_at(unix);
        calendar::year_text(date.year as int) + "-"@ + text::padded(date.month as nat) + "-"@
            + text::padded(date.day as nat) + " "@ + text::padded(hour as nat) + ":"@ + text::padded(
            minute as nat,
        )
    } else {
        ""@
    }
}

pub fn format_time(unix: i64, zone: &Zone) -> (r: String)
    ensures
        r@ == time_text(unix as int, *zone),
{
    if unix < FIRST_SECOND || unix > LAST_SECOND {
        return "".to_string();
    }
    let date = zone.date(unix);
    let (hour, minute) = zone.time(unix);
    let mut out = String::new();
    calendar::push_year(&mut out, date.year);
    out.append("-");
    text::push_padded(&mut out, date.month as u64);
    out.append("-");
    text::push_padded(&mut out, date.day as u64);
    out.append(" ");
    text::push_padded(&mut out, hour as u64);
    out.append(":");
    text::push_padded(&mut out, minute as u64);
    assert(out@ =~= time_text(unix as int, *zone));
    out
}

/// Milligrams as whole grams.
pub open spec fn grams_text(mg: int) -> Seq<char> {
    num::rounded_text(mg) + " g"@
}

pub fn grams(mg: i64) -> (r: String)
    ensures
        r@ == grams_text(mg as int),
{
    let mut out = String::new();
    num::push_rounded(&mut out, mg);
    out.append(" g");
    assert(out@ =~= grams_text(mg as int));
    out
}

pub open spec fn is_hex(s: Seq<char>) -> bool {
    forall|i: int| 0 <= i < s.len() ==> text::is_hex_digit(#[trigger] s[i])
}

/// The digits of a colour that is six hexadecimal ones, with or without a `#` before them.
pub open spec fn color_digits(raw: Seq<char>) -> Option<Seq<char>> {
    let hex = if raw.len() > 0 && raw[0] == '#' {
        raw.skip(1)
    } else {
        raw
    };
    if hex.len() == 6 && is_hex(hex) {
        Some(hex)
    } else {
        None
    }
}

pub open spec fn safe_color_text(raw: Seq<char>) -> Seq<char> {
    match color_digits(raw) {
        Some(hex) => "#"@ + hex,
        None => "#888888"@,
    }
}

pub fn safe_color(raw: &str) -> (r: String)
    ensures
        r@ == safe_color_text(raw@),
{
    let chars = text::chars(raw);
    let start: usize = if chars.len() > 0 && chars[0] == '#' {
        1
    } else {
        0
    };
    let hex = vstd::slice::slice_subrange(chars.as_slice(), start, chars.len());
    assert(start == 1 ==> hex@ =~= raw@.skip(1));
    assert(start == 0 ==> hex@ =~= raw@);
    if hex.len() != 6 {
        return "#888888".to_string();
    }
    let mut i: usize = 0;
    while i < 6
        invariant
            i <= 6,
            hex@.len() == 6,
            hex@ == if raw@.len() > 0 && raw@[0] == '#' {
                raw@.skip(1)
            } else {
                raw@
            },
            forall|k: int| 0 <= k < i ==> text::is_hex_digit(#[trigger] hex@[k]),
        decreases 6 - i,
    {
        if !text::char_is_hex(hex[i]) {
            assert(!is_hex(hex@)) by {
                assert(!text::is_hex_digit(hex@[i as int]));
            }
            return "#888888".to_string();
        }
        i += 1;
    }
    assert(is_hex(hex@));
    let mut out = String::new();
    out.append("#");
    let digits = text::string(hex);
    out.append(digits.as_str());
    out
}

/// Whatever it is made from, a colour is safe to write into an attribute.
pub proof fn safe_colors_are_colors(raw: Seq<char>)
    ensures
        safe_color_text(raw).len() == 7,
        safe_color_text(raw)[0] == '#',
        forall|i: int|
            1 <= i < 7 ==> text::is_hex_digit(#[trigger] safe_color_text(raw)[i]),
{
    reveal_strlit("#");
    reveal_strlit("#888888");
    if let Some(hex) = color_digits(raw) {
        assert forall|i: int| 1 <= i < 7 implies text::is_hex_digit(
            #[trigger] safe_color_text(raw)[i],
        ) by {
            assert(is_hex(hex));
            assert(safe_color_text(raw)[i] == hex[i - 1]);
        }
    }
}

pub open spec fn temperature_text(heater: Heater) -> Seq<char> {
    if heater.target.is_positive() {
        heater.temperature.rounded_text() + " °C, target "@ + heater.target.rounded_text() + " °C"@
    } else {
        heater.temperature.rounded_text() + " °C"@
    }
}

pub fn temperature(heater: &Heater) -> (r: String)
    ensures
        r@ == temperature_text(*heater),
{
    let mut out = String::new();
    heater.temperature.push_rounded(&mut out);
    if heater.target.is_above_zero() {
        out.append(" °C, target ");
        heater.target.push_rounded(&mut out);
    }
    out.append(" °C");
    assert(out@ =~= temperature_text(*heater));
    out
}

pub open spec fn layers_text(current: i64, total: i64, job_layers: Option<i64>) -> Option<Seq<char>> {
    if current <= 0 {
        None
    } else if total > 0 {
        Some(text::decimal_int(current as int) + " of "@ + text::decimal_int(total as int))
    } else {
        match job_layers {
            Some(n) if n > 0 => Some(
                text::decimal_int(current as int) + " of "@ + text::decimal_int(n as int),
            ),
            _ => Some(text::decimal_int(current as int)),
        }
    }
}

/// Firmware 02.01.00.00 counts `current_layer` up but leaves `total_layer` at 0, so the total
/// falls back to the layer count PrintHub read from the job's own G-code.
pub fn layer_line(current: i64, total: i64, job_layers: Option<i64>) -> (r: Option<String>)
    ensures
        text::opt_view(r) == layers_text(current, total, job_layers),
{
    if current <= 0 {
        return None;
    }
    let mut out = text::decimal_int_string(current);
    let known: Option<i64> = if total > 0 {
        Some(total)
    } else {
        match job_layers {
            Some(n) => if n > 0 {
                Some(n)
            } else {
                None
            },
            None => None,
        }
    };
    if let Some(n) = known {
        out.append(" of ");
        text::push_decimal_int(&mut out, n);
    }
    Some(out)
}

/// Brand, material and colour, as far as they are known.
pub open spec fn spool_title(spool: Spool) -> Seq<char> {
    let a = if spool.brand@.len() == 0 {
        seq![]
    } else {
        seq![spool.brand@]
    };
    let b = if spool.material@.len() == 0 {
        a
    } else {
        a.push(spool.material@)
    };
    let c = if spool.color_name@.len() == 0 {
        b
    } else {
        b.push(spool.color_name@)
    };
    text::join(c, " "@)
}

pub fn spool_name(spool: &Spool) -> (r: String)
    ensures
        r@ == spool_title(*spool),
{
    let mut parts: Vec<String> = Vec::new();
    assert(text::views(parts@) =~= seq![]);
    if !spool.brand.as_str().is_empty() {
        parts.push(spool.brand.clone());
        assert(text::views(parts@) =~= seq![spool.brand@]);
    }
    let ghost a = text::views(parts@);
    if !spool.material.as_str().is_empty() {
        parts.push(spool.material.clone());
        assert(text::views(parts@) =~= a.push(spool.material@));
    }
    let ghost b = text::views(parts@);
    if !spool.color_name.as_str().is_empty() {
        parts.push(spool.color_name.clone());
        assert(text::views(parts@) =~= b.push(spool.color_name@));
    }
    text::join_strings(&parts, " ")
}

// ---------------------------------------------------------------------------------------------
// The printer
// ---------------------------------------------------------------------------------------------

/// What a print is busy with. The same numbers mean other things in other states.
pub open spec fn printing_label(sub_status: i64) -> Seq<char> {
    if sub_status == sub::PAUSED || sub_status == sub::PAUSED_ALT {
        "Paused"@
    } else if sub_status == sub::PAUSING {
        "Pausing"@
    } else if sub_status == sub::RESUMING {
        "Resuming"@
    } else if sub_status == sub::STOPPING {
        "Stopping"@
    } else if sub_status == sub::STOPPED {
        "Stopped"@
    } else if sub_status == sub::EXTRUDER_PREHEATING || sub_status == sub::EXTRUDER_PREHEATING_ALT {
        "Heating the nozzle"@
    } else if sub_status == sub::BED_PREHEATING || sub_status == sub::BED_PREHEATING_ALT {
        "Heating the bed"@
    } else if sub_status == sub::HOMING || sub_status == sub::HOMING_COMPLETED {
        "Homing"@
    } else if sub_status == sub::AUTO_LEVELING || sub_status == sub::AUTO_LEVELING_COMPLETED {
        "Levelling the bed"@
    } else {
        "Printing"@
    }
}

pub open spec fn label_of(status: i64, sub_status: i64) -> Seq<char> {
    match model::machine_state(status) {
        MachineState::Printing => printing_label(sub_status),
        MachineState::Idle => if sub_status == sub::COMPLETED {
            "Finished"@
        } else {
            "Idle"@
        },
        MachineState::Initializing => "Starting up"@,
        MachineState::FilamentOperating => "Loading or unloading filament"@,
        MachineState::AutoLeveling => "Levelling the bed"@,
        MachineState::PidCalibrating => "Calibrating heaters"@,
        MachineState::ResonanceTesting => "Measuring resonance"@,
        MachineState::SelfChecking => "Running a self-check"@,
        MachineState::Updating => "Updating firmware"@,
        MachineState::Homing => "Homing"@,
        MachineState::FileTransferring => "Receiving a file"@,
        MachineState::VideoComposing => "Rendering a timelapse"@,
        MachineState::ExtruderOperating => "Extruder maintenance"@,
        MachineState::EmergencyStop => "Emergency stop"@,
        MachineState::PowerLossRecovery => "Recovering from power loss"@,
        MachineState::Unknown(code) => "Unknown state "@ + text::decimal_int(code as int),
    }
}

fn printing_str(sub_status: i64) -> (r: &'static str)
    ensures
        r@ == printing_label(sub_status),
{
    if sub_status == sub::PAUSED || sub_status == sub::PAUSED_ALT {
        "Paused"
    } else if sub_status == sub::PAUSING {
        "Pausing"
    } else if sub_status == sub::RESUMING {
        "Resuming"
    } else if sub_status == sub::STOPPING {
        "Stopping"
    } else if sub_status == sub::STOPPED {
        "Stopped"
    } else if sub_status == sub::EXTRUDER_PREHEATING || sub_status == sub::EXTRUDER_PREHEATING_ALT {
        "Heating the nozzle"
    } else if sub_status == sub::BED_PREHEATING || sub_status == sub::BED_PREHEATING_ALT {
        "Heating the bed"
    } else if sub_status == sub::HOMING || sub_status == sub::HOMING_COMPLETED {
        "Homing"
    } else if sub_status == sub::AUTO_LEVELING || sub_status == sub::AUTO_LEVELING_COMPLETED {
        "Levelling the bed"
    } else {
        "Printing"
    }
}

pub fn state_label(status: &StatusView) -> (r: String)
    ensures
        r@ == label_of(status.machine_status.status, status.machine_status.sub_status),
{
    let machine = &status.machine_status;
    let label = match machine.state() {
        MachineState::Printing => printing_str(machine.sub_status),
        MachineState::Idle => if machine.sub_status == sub::COMPLETED {
            "Finished"
        } else {
            "Idle"
        },
        MachineState::Initializing => "Starting up",
        MachineState::FilamentOperating => "Loading or unloading filament",
        MachineState::AutoLeveling => "Levelling the bed",
        MachineState::PidCalibrating => "Calibrating heaters",
        MachineState::ResonanceTesting => "Measuring resonance",
        MachineState::SelfChecking => "Running a self-check",
        MachineState::Updating => "Updating firmware",
        MachineState::Homing => "Homing",
        MachineState::FileTransferring => "Receiving a file",
        MachineState::VideoComposing => "Rendering a timelapse",
        MachineState::ExtruderOperating => "Extruder maintenance",
        MachineState::EmergencyStop => "Emergency stop",
        MachineState::PowerLossRecovery => "Recovering from power loss",
        MachineState::Unknown(code) => {
            let mut out = String::new();
            out.append("Unknown state ");
            text::push_decimal_int(&mut out, code);
            assert(out@ =~= "Unknown state "@ + text::decimal_int(code as int));
            return out;
        },
    };
    label.to_string()
}

#[derive(Debug, PartialEq, Eq)]
pub struct TraySpool {
    pub id: i64,
    pub name: String,
    pub remaining: String,
    /// The tray reports a material other than the spool's.
    pub mismatch: bool,
}

#[derive(Debug, PartialEq, Eq)]
pub struct TrayView {
    pub canvas_id: i64,
    pub tray_id: i64,
    pub label: String,
    pub material: String,
    /// Always a valid `#RRGGBB`: it is written into an SVG attribute.
    pub color: String,
    pub state: &'static str,
    pub loaded: bool,
    pub spool: Option<TraySpool>,
}

/// The first binding from position `i` on of the given tray, or the number of bindings.
pub open spec fn binding_at(bindings: Seq<Binding>, canvas_id: i64, tray_id: i64, i: int) -> int
    decreases bindings.len() - i,
{
    if i >= bindings.len() {
        bindings.len() as int
    } else if bindings[i].canvas_id == canvas_id && bindings[i].tray_id == tray_id {
        i
    } else {
        binding_at(bindings, canvas_id, tray_id, i + 1)
    }
}

fn find_binding(bindings: &[Binding], canvas_id: i64, tray_id: i64) -> (r: usize)
    ensures
        r == binding_at(bindings@, canvas_id, tray_id, 0),
        r <= bindings@.len(),
{
    let mut i: usize = 0;
    while i < bindings.len()
        invariant
            i <= bindings@.len(),
            binding_at(bindings@, canvas_id, tray_id, 0) == binding_at(
                bindings@,
                canvas_id,
                tray_id,
                i as int,
            ),
        decreases bindings.len() - i,
    {
        if bindings[i].canvas_id == canvas_id && bindings[i].tray_id == tray_id {
            return i;
        }
        i += 1;
    }
    i
}

pub open spec fn tray_state_name(status: i64) -> Seq<char> {
    match model::tray_state(status) {
        TrayState::Empty => "empty"@,
        TrayState::Loaded => "loaded"@,
        TrayState::Active => "in use"@,
        TrayState::Unknown(_) => "unknown"@,
    }
}

/// What the tray holds, as far as the printer says.
pub open spec fn tray_material(tray: Tray) -> Seq<char> {
    if !tray.holds_filament() {
        ""@
    } else if tray.filament_name@.len() == 0 {
        tray.filament_type@
    } else {
        tray.filament_name@
    }
}

/// The tray says it holds something else than the spool is.
pub open spec fn is_mismatch(tray: Tray, spool: Spool) -> bool {
    tray.holds_filament() && text::trim(tray.filament_type@).len() > 0
        && !inventory::matches_material(tray.filament_type@, spool.material@)
}

pub open spec fn shows_spool(shown: TraySpool, tray: Tray, spool: Spool) -> bool {
    &&& shown.id == spool.id
    &&& shown.name@ == spool_title(spool)
    &&& shown.remaining@ == grams_text(spool.remaining_mg as int)
    &&& shown.mismatch == is_mismatch(tray, spool)
}

pub open spec fn shows_tray(view: TrayView, canvas_id: u32, tray: Tray, bindings: Seq<Binding>) -> bool {
    let at = binding_at(bindings, canvas_id as i64, tray.tray_id as i64, 0);
    &&& view.canvas_id == canvas_id
    &&& view.tray_id == tray.tray_id
    &&& view.label@ == inventory::tray_name(canvas_id as int, tray.tray_id as int)
    &&& view.material@ == tray_material(tray)
    &&& view.color@ == safe_color_text(tray.filament_color@)
    &&& view.state@ == tray_state_name(tray.status)
    &&& view.loaded == tray.holds_filament()
    &&& if at < bindings.len() {
        view.spool matches Some(shown) && shows_spool(shown, tray, bindings[at].spool)
    } else {
        view.spool is None
    }
}

fn tray_view(canvas_id: u32, tray: &Tray, bindings: &[Binding]) -> (r: TrayView)
    ensures
        shows_tray(r, canvas_id, *tray, bindings@),
{
    let at = find_binding(bindings, canvas_id as i64, tray.tray_id as i64);
    let loaded = tray.has_filament();
    let spool: Option<TraySpool> = if at < bindings.len() {
        let spool = &bindings[at].spool;
        let kind = text::chars(tray.filament_type.as_str());
        let named = text::trimmed(kind.as_slice()).len() > 0;
        Some(
            TraySpool {
                id: spool.id,
                name: spool_name(spool),
                remaining: grams(spool.remaining_mg),
                mismatch: loaded && named && !inventory::material_matches(
                    tray.filament_type.as_str(),
                    spool.material.as_str(),
                ),
            },
        )
    } else {
        None
    };
    let material = if !loaded {
        "".to_string()
    } else if tray.filament_name.as_str().is_empty() {
        tray.filament_type.clone()
    } else {
        tray.filament_name.clone()
    };
    TrayView {
        canvas_id: canvas_id as i64,
        tray_id: tray.tray_id as i64,
        label: tray_label(canvas_id as i64, tray.tray_id as i64),
        material,
        color: safe_color(tray.filament_color.as_str()),
        state: match tray.state() {
            TrayState::Empty => "empty",
            TrayState::Loaded => "loaded",
            TrayState::Active => "in use",
            TrayState::Unknown(_) => "unknown",
        },
        loaded,
        spool,
    }
}

/// Every tray with the number of its unit, unit by unit.
pub open spec fn trays_of(canvases: Seq<Canvas>) -> Seq<(u32, Tray)>
    decreases canvases.len(),
{
    if canvases.len() == 0 {
        seq![]
    } else {
        let unit = canvases.last();
        trays_of(canvases.drop_last()) + unit.tray_list@.map_values(
            |tray: Tray| (unit.canvas_id, tray),
        )
    }
}

pub open spec fn trays_in(snapshot: PrinterSnapshot) -> Seq<(u32, Tray)> {
    match snapshot.canvas {
        Some(canvas) => trays_of(canvas.canvas_list@),
        None => seq![],
    }
}

pub open spec fn shows_trays(views: Seq<TrayView>, trays: Seq<(u32, Tray)>, bindings: Seq<Binding>) -> bool {
    &&& views.len() == trays.len()
    &&& forall|i: int|
        0 <= i < trays.len() ==> shows_tray(#[trigger] views[i], trays[i].0, trays[i].1, bindings)
}

pub fn trays(snapshot: &PrinterSnapshot, bindings: &[Binding]) -> (r: Vec<TrayView>)
    ensures
        shows_trays(r@, trays_in(*snapshot), bindings@),
{
    let mut out: Vec<TrayView> = Vec::new();
    let canvas: &CanvasInfo = match &snapshot.canvas {
        Some(canvas) => canvas,
        None => {
            return out;
        },
    };
    let units = &canvas.canvas_list;
    let mut i: usize = 0;
    assert(units@.take(0) =~= seq![]);
    while i < units.len()
        invariant
            i <= units@.len(),
            shows_trays(out@, trays_of(units@.take(i as int)), bindings@),
        decreases units.len() - i,
    {
        let ghost before = trays_of(units@.take(i as int));
        let ghost unit = units@[i as int];
        let ghost more = unit.tray_list@.map_values(|tray: Tray| (unit.canvas_id, tray));
        assert(units@.take(i + 1).drop_last() =~= units@.take(i as int));
        let list = &units[i].tray_list;
        let mut k: usize = 0;
        assert(before + more.take(0) =~= before);
        while k < list.len()
            invariant
                i < units@.len(),
                unit == units@[i as int],
                list@ == unit.tray_list@,
                more == unit.tray_list@.map_values(|tray: Tray| (unit.canvas_id, tray)),
                k <= list@.len(),
                shows_trays(out@, before + more.take(k as int), bindings@),
            decreases list.len() - k,
        {
            let ghost shown = before + more.take(k as int);
            let view = tray_view(units[i].canvas_id, &list[k], bindings);
            let ghost old_out = out@;
            out.push(view);
            k += 1;
            assert(before + more.take(k as int) =~= shown.push(more[k - 1]));
            assert forall|j: int| 0 <= j < out@.len() implies shows_tray(
                #[trigger] out@[j],
                (before + more.take(k as int))[j].0,
                (before + more.take(k as int))[j].1,
                bindings@,
            ) by {
                if j < old_out.len() {
                    assert(out@[j] == old_out[j]);
                }
            }
        }
        assert(more.take(k as int) =~= more);
        i += 1;
    }
    assert(units@.take(i as int) =~= units@);
    out
}

#[derive(Debug, PartialEq, Eq)]
pub struct PrinterCard {
    pub connected: bool,
    pub link: String,
    pub state: String,
    pub busy: bool,
    pub paused: bool,
    pub progress: Option<i64>,
    pub filename: String,
    pub layers: Option<String>,
    pub remaining: Option<String>,
    pub nozzle: Option<String>,
    /// The mounted nozzle as people recorded it; the printer does not report it.
    pub nozzle_size: String,
    pub nozzle_note: String,
    pub bed: Option<String>,
    pub trays: Vec<TrayView>,
    pub can_control: bool,
}

pub open spec fn link_text(link: LinkState) -> Seq<char> {
    match link {
        LinkState::Registered => "Connected"@,
        LinkState::Connecting => "Connecting"@,
        LinkState::Discovering(_) => "Looking for the printer"@,
        LinkState::Rejected(reason) => "Refused: "@ + reason@,
        LinkState::Disconnected(_) => "Disconnected"@,
    }
}

fn link_string(link: &LinkState) -> (r: String)
    ensures
        r@ == link_text(*link),
{
    match link {
        LinkState::Registered => "Connected".to_string(),
        LinkState::Connecting => "Connecting".to_string(),
        LinkState::Discovering(_) => "Looking for the printer".to_string(),
        LinkState::Rejected(reason) => {
            let mut out = String::new();
            out.append("Refused: ");
            out.append(reason.as_str());
            assert(out@ =~= "Refused: "@ + reason@);
            out
        },
        LinkState::Disconnected(_) => "Disconnected".to_string(),
    }
}

pub open spec fn nozzle_note_text(mounted: MountedNozzle, zone: Zone) -> Seq<char> {
    match mounted.recorded {
        Some(record) => "recorded by "@ + match record.by {
            Some(name) => name@,
            None => "a deleted user"@,
        } + ", "@ + time_text(record.at as int, zone),
        None => "assumed; nobody has recorded it yet"@,
    }
}

fn nozzle_note(mounted: &MountedNozzle, zone: &Zone) -> (r: String)
    ensures
        r@ == nozzle_note_text(*mounted, *zone),
{
    match &mounted.recorded {
        Some(record) => {
            let mut out = String::new();
            out.append("recorded by ");
            match &record.by {
                Some(name) => {
                    out.append(name.as_str());
                },
                None => {
                    out.append("a deleted user");
                },
            }
            out.append(", ");
            let when = format_time(record.at, zone);
            out.append(when.as_str());
            assert(out@ =~= nozzle_note_text(*mounted, *zone));
            out
        },
        None => "assumed; nobody has recorded it yet".to_string(),
    }
}

pub open spec fn clamp_percent(progress: int) -> int {
    if progress < 0 {
        0
    } else if progress > 100 {
        100
    } else {
        progress
    }
}

impl PrinterCard {
    /// What the card says of the print.
    pub open spec fn shows_status(self, status: StatusView, job_layers: Option<i64>) -> bool {
        let machine = status.machine_status;
        let print = status.print_status;
        let busy = machine.status == 2;
        let finished = machine.status == 1 && machine.sub_status == sub::COMPLETED;
        &&& self.state@ == label_of(machine.status, machine.sub_status)
        &&& self.busy == busy
        &&& self.paused == (busy && (machine.sub_status == sub::PAUSED || machine.sub_status
            == sub::PAUSED_ALT))
        &&& if busy || finished {
            self.progress matches Some(n) && n == clamp_percent(machine.progress as int)
        } else {
            self.progress is None
        }
        &&& self.filename@ == print.filename@
        &&& text::opt_view(self.layers) == layers_text(
            print.current_layer,
            print.total_layer,
            job_layers,
        )
        &&& if busy && print.remaining_time_sec > 0 {
            self.remaining matches Some(left) && left@ == duration_text(
                print.remaining_time_sec as int,
            )
        } else {
            self.remaining is None
        }
        &&& self.nozzle matches Some(shown) && shown@ == temperature_text(status.extruder)
        &&& self.bed matches Some(shown) && shown@ == temperature_text(status.heater_bed)
    }

    /// What the card says while the printer has not said anything yet.
    pub open spec fn shows_waiting(self) -> bool {
        &&& self.state@ == "Waiting for the printer"@
        &&& !self.busy
        &&& !self.paused
        &&& self.progress is None
        &&& self.filename@ == ""@
        &&& self.layers is None
        &&& self.remaining is None
        &&& self.nozzle is None
        &&& self.bed is None
    }

    pub fn new(
        snapshot: &PrinterSnapshot,
        may_control: bool,
        bindings: &[Binding],
        mounted: &MountedNozzle,
        job_layers: Option<i64>,
        zone: &Zone,
    ) -> (r: PrinterCard)
        ensures
            r.connected == (snapshot.link is Registered),
            r.link@ == link_text(snapshot.link),
            r.nozzle_size@ == mounted.nozzle.name() + " mm"@,
            r.nozzle_note@ == nozzle_note_text(*mounted, *zone),
            shows_trays(r.trays@, trays_in(*snapshot), bindings@),
            match snapshot.status {
                Some(status) => r.shows_status(status, job_layers),
                None => r.shows_waiting(),
            },
            r.can_control == (snapshot.status is Some && snapshot.link is Registered && may_control),
    {
        let mut nozzle_size = String::new();
        nozzle_size.append(mounted.nozzle.as_str());
        nozzle_size.append(" mm");
        assert(nozzle_size@ =~= mounted.nozzle.name() + " mm"@);
        let nozzle_note = nozzle_note(mounted, zone);
        let connected = match &snapshot.link {
            LinkState::Registered => true,
            _ => false,
        };
        let link = link_string(&snapshot.link);
        let trays = trays(snapshot, bindings);
        let status = match &snapshot.status {
            Some(status) => status,
            None => {
                return PrinterCard {
                    connected,
                    link,
                    state: "Waiting for the printer".to_string(),
                    busy: false,
                    paused: false,
                    progress: None,
                    filename: "".to_string(),
                    layers: None,
                    remaining: None,
                    nozzle: None,
                    nozzle_size,
                    nozzle_note,
                    bed: None,
                    trays,
                    can_control: false,
                };
            },
        };
        let machine = &status.machine_status;
        let print = &status.print_status;
        let busy = machine.state() == MachineState::Printing;
        let finished = machine.state() == MachineState::Idle && machine.sub_status == sub::COMPLETED;
        let percent: i64 = if machine.progress < 0 {
            0
        } else if machine.progress > 100 {
            100
        } else {
            machine.progress
        };
        PrinterCard {
            connected,
            link,
            state: state_label(status),
            busy,
            paused: busy && (machine.sub_status == sub::PAUSED || machine.sub_status
                == sub::PAUSED_ALT),
            progress: if busy || finished {
                Some(percent)
            } else {
                None
            },
            filename: print.filename.clone(),
            layers: layer_line(print.current_layer, print.total_layer, job_layers),
            remaining: if busy && print.remaining_time_sec > 0 {
                Some(human_duration(print.remaining_time_sec))
            } else {
                None
            },
            nozzle: Some(temperature(&status.extruder)),
            nozzle_size,
            nozzle_note,
            bed: Some(temperature(&status.heater_bed)),
            trays,
            can_control: connected && may_control,
        }
    }
}

/// How far a print is is shown while the printer prints (status 2), and once it is done (status 1
/// with 2077); the time that is left is shown while it prints. A paused print counts as one that
/// runs.
pub proof fn progress_is_shown_while_printing(
    view: PrinterCard,
    status: StatusView,
    job_layers: Option<i64>,
)
    requires
        view.shows_status(status, job_layers),
    ensures
        ({
            let machine = status.machine_status;
            &&& view.busy <==> machine.status == 2
            &&& view.paused <==> machine.status == 2 && (machine.sub_status == 2502
                || machine.sub_status == 2505)
            &&& view.progress is Some <==> machine.status == 2 || machine.status == 1
                && machine.sub_status == 2077
            &&& view.progress matches Some(n) ==> 0 <= n <= 100
            &&& view.progress is Some && 0 <= machine.progress <= 100 ==> view.progress->0
                == machine.progress
            &&& view.remaining is Some <==> machine.status == 2
                && status.print_status.remaining_time_sec > 0
            &&& view.filename@ == status.print_status.filename@
            &&& view.paused ==> view.state@ == "Paused"@
            &&& machine.status == 1 && machine.sub_status == 2077 ==> view.state@ == "Finished"@
            &&& machine.status == 1 && machine.sub_status != 2077 ==> view.state@ == "Idle"@
            &&& machine.status == 14 ==> view.state@ == "Emergency stop"@
        }),
{
}

/// Layers are counted from the first on, out of those that the printer tells of, or else out of
/// those that the job has.
pub proof fn layers_are_counted_from_the_first(current: i64, total: i64, job_layers: Option<i64>)
    ensures
        layers_text(current, total, job_layers) is None <==> current <= 0,
        current > 0 && total > 0 ==> layers_text(current, total, job_layers) == layers_text(
            current,
            total,
            None,
        ),
        current > 0 && total > 0 ==> layers_text(current, total, None) == Some(
            text::decimal_int(current as int) + " of "@ + text::decimal_int(total as int),
        ),
        current > 0 && total <= 0 && job_layers is Some && job_layers->0 > 0 ==> layers_text(
            current,
            total,
            job_layers,
        ) == layers_text(current, job_layers->0, None),
{
}

/// Times are shown in hours and minutes, rounded up to the minute.
pub proof fn times_are_rounded_up_to_the_minute(hours: int, minutes: int, part: int)
    requires
        0 <= hours,
        0 <= minutes < 60,
        0 <= part < 60,
    ensures
        ({
            let shown = duration_text(3600 * hours + 60 * minutes - part);
            &&& 3600 * hours + 60 * minutes - part > 0 ==> shown == duration_text(
                3600 * hours + 60 * minutes,
            )
            &&& hours == 0 && minutes > 0 ==> shown == text::decimal_int(minutes) + " min"@
            &&& hours > 0 && minutes == 0 && part == 0 ==> shown == text::decimal_int(hours) + " h"@
            &&& hours > 0 && minutes > 0 ==> shown == text::decimal_int(hours) + " h "@
                + text::decimal_int(minutes) + " min"@
        }),
        duration_text(0) == "under a minute"@,
{
    let s = 3600 * hours + 60 * minutes;
    assert(s == 60 * (60 * hours + minutes));
    if s - part > 0 {
        assert((s - part + 59) / 60 == 60 * hours + minutes);
        assert((s + 59) / 60 == 60 * hours + minutes);
        assert((60 * hours + minutes) / 60 == hours);
    }
}

/// The trays on show are those of the units on show, each with its unit.
pub proof fn every_tray_of_a_unit_is_shown(canvases: Seq<Canvas>, unit: int, k: int)
    requires
        0 <= unit < canvases.len(),
        0 <= k < canvases[unit].tray_list@.len(),
    ensures
        trays_of(canvases).contains((canvases[unit].canvas_id, canvases[unit].tray_list@[k])),
    decreases canvases.len(),
{
    let last = canvases.last();
    let before = trays_of(canvases.drop_last());
    let mine = last.tray_list@.map_values(|tray: Tray| (last.canvas_id, tray));
    let all = trays_of(canvases);
    let wanted = (canvases[unit].canvas_id, canvases[unit].tray_list@[k]);
    if unit < canvases.len() - 1 {
        every_tray_of_a_unit_is_shown(canvases.drop_last(), unit, k);
        let i = choose|i: int| 0 <= i < before.len() && before[i] == wanted;
        assert(all[i] == wanted);
    } else {
        assert(mine[k] == wanted);
        assert(all[before.len() + k] == wanted);
    }
}

/// A tray is shown with the spool that is bound to it and to no other tray, and with a warning
/// where it is loaded and says another material than the spool.
pub proof fn trays_are_shown_with_their_spool(
    view: TrayView,
    canvas_id: u32,
    tray: Tray,
    bindings: Seq<Binding>,
    k: int,
)
    requires
        shows_tray(view, canvas_id, tray, bindings),
    ensures
        view.spool is None && 0 <= k < bindings.len() ==> !(bindings[k].canvas_id == canvas_id
            && bindings[k].tray_id == tray.tray_id),
        view.spool matches Some(shown) ==> exists|i: int|
            0 <= i < bindings.len() && (#[trigger] bindings[i]).canvas_id == canvas_id
                && bindings[i].tray_id == tray.tray_id && shown.id == bindings[i].spool.id
                && (shown.mismatch <==> (tray.status == 1 || tray.status == 2) && text::trim(
                tray.filament_type@,
            ).len() > 0 && !inventory::matches_material(
                tray.filament_type@,
                bindings[i].spool.material@,
            )),
        view.loaded <==> tray.status == 1 || tray.status == 2,
        !view.loaded ==> view.material@.len() == 0,
{
    reveal_strlit("");
    lemma_binding_found(bindings, canvas_id as i64, tray.tray_id as i64, 0);
}

proof fn lemma_binding_found(bindings: Seq<Binding>, canvas_id: i64, tray_id: i64, from: int)
    requires
        0 <= from <= bindings.len(),
    ensures
        ({
            let i = binding_at(bindings, canvas_id, tray_id, from);
            &&& from <= i <= bindings.len()
            &&& i < bindings.len() ==> bindings[i].canvas_id == canvas_id && bindings[i].tray_id
                == tray_id
            &&& forall|k: int|
                from <= k < i ==> !((#[trigger] bindings[k]).canvas_id == canvas_id
                    && bindings[k].tray_id == tray_id)
        }),
    decreases bindings.len() - from,
{
    if from < bindings.len() {
        lemma_binding_found(bindings, canvas_id, tray_id, from + 1);
    }
}

} // verus!

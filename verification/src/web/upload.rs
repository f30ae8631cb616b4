//! Uploads: what a new job is made of.

use vstd::prelude::*;

use crate::accounts::User;
use crate::config::Nozzle;
use crate::decimal;
use crate::dispatcher;
use crate::float;
use crate::gcode::GcodeInfo;
use crate::inventory::{self, Inventory, Spool};
use crate::jobs::{NewJob, Source};
use crate::slicer::{self, Plate, SliceSettings};
use crate::text;
use crate::web::error::AppError;
use crate::web::forms::{self, Choice, Fields};
use crate::web::views;

verus! {

pub const DEFAULT_INFILL: &'static str = "15";

pub const DEFAULT_SCALE: &'static str = "100";

/// Something the uploader can fix, shown on the form, or a server fault.
#[derive(Debug, PartialEq, Eq)]
pub enum Problem {
    User(String),
    App(AppError),
}

pub fn user_problem(message: &str) -> (r: Problem)
    ensures
        r matches Problem::User(said) && said@ == message@,
{
    Problem::User(message.to_string())
}

// ---------------------------------------------------------------------------------------------
// Names
// ---------------------------------------------------------------------------------------------

pub open spec fn is_separator(c: char) -> bool {
    c == '/' || c == '\\'
}

/// What stands after the last separator.
pub open spec fn last_component(raw: Seq<char>) -> Seq<char>
    decreases raw.len(),
{
    if raw.len() == 0 || is_separator(raw.last()) {
        seq![]
    } else {
        last_component(raw.drop_last()).push(raw.last())
    }
}

/// The most characters that are kept of a file's name.
pub const NAME_LENGTH: usize = 120;

pub open spec fn clean_name(raw: Seq<char>) -> Seq<char> {
    let name = text::trim(last_component(raw));
    if name.len() > NAME_LENGTH {
        name.take(NAME_LENGTH as int)
    } else {
        name
    }
}

/// The last path component, for display only: files are stored under the job's id.
pub fn clean_file_name(raw: &str) -> (r: String)
    ensures
        r@ == clean_name(raw@),
{
    let chars = text::chars(raw);
    let total: usize = chars.len();
    let mut i: usize = total;
    assert(chars@.skip(total as int) =~= seq![]);
    assert(last_component(chars@.take(total as int)) + chars@.skip(total as int)
        =~= last_component(chars@)) by {
        assert(chars@.take(total as int) =~= chars@);
    }
    while i > 0 && chars[i - 1] != '/' && chars[i - 1] != '\\'
        invariant
            i <= total == chars@.len(),
            chars@ == raw@,
            last_component(chars@) == last_component(chars@.take(i as int)) + chars@.skip(
                i as int,
            ),
        decreases i,
    {
        assert(chars@.take(i as int).drop_last() =~= chars@.take(i - 1));
        assert(chars@.skip(i - 1) =~= seq![chars@[i - 1]] + chars@.skip(i as int));
        assert(last_component(chars@.take(i - 1)).push(chars@[i - 1]) + chars@.skip(i as int)
            =~= last_component(chars@.take(i - 1)) + chars@.skip(i - 1));
        i -= 1;
    }
    assert(last_component(chars@.take(i as int)) =~= seq![]);
    let last = vstd::slice::slice_subrange(chars.as_slice(), i, total);
    assert(last@ =~= last_component(raw@));
    let name = text::trimmed(last);
    if name.len() > NAME_LENGTH {
        let cut = vstd::slice::slice_subrange(name, 0, NAME_LENGTH);
        assert(cut@ =~= name@.take(NAME_LENGTH as int));
        text::string(cut)
    } else {
        text::string(name)
    }
}

/// No name holds a directory, and none is long.
pub proof fn file_names_lose_their_directories(raw: Seq<char>)
    ensures
        clean_name(raw).len() <= NAME_LENGTH,
        forall|i: int| 0 <= i < clean_name(raw).len() ==> !is_separator(#[trigger] clean_name(raw)[i]),
{
    lemma_last_component(raw);
    let last = last_component(raw);
    text::lemma_trim_start(last);
    text::lemma_trim_end(text::trim_start(last));
    let name = text::trim(last);
    assert forall|i: int| 0 <= i < name.len() implies !is_separator(#[trigger] name[i]) by {
        assert(name[i] == text::trim_start(last)[i]);
    }
}

proof fn lemma_last_component(raw: Seq<char>)
    ensures
        forall|i: int|
            0 <= i < last_component(raw).len() ==> !is_separator(#[trigger] last_component(raw)[i]),
    decreases raw.len(),
{
    if raw.len() > 0 && !is_separator(raw.last()) {
        lemma_last_component(raw.drop_last());
        let before = last_component(raw.drop_last());
        assert forall|i: int| 0 <= i < last_component(raw).len() implies !is_separator(
            #[trigger] last_component(raw)[i],
        ) by {
            if i < before.len() {
                assert(last_component(raw)[i] == before[i]);
            }
        }
    }
}

/// A character in upper case, which may take several.
pub uninterp spec fn char_uppercase(c: char) -> Seq<char>;

/// `char::to_uppercase`. An ASCII character becomes its capital, if it has one, and else stays.
#[verifier::external_body]
fn char_to_uppercase(c: char) -> (r: String)
    ensures
        r@ == char_uppercase(c),
        c as u32 <= 127 ==> r@ == seq![text::upper_char(c)],
{
    c.to_uppercase().collect()
}

/// As a sentence: with a capital, and a full stop.
pub open spec fn sentence(s: Seq<char>) -> Seq<char> {
    if s.len() == 0 {
        seq![]
    } else {
        char_uppercase(s[0]) + s.skip(1) + "."@
    }
}

pub fn capitalise(s: &str) -> (r: String)
    ensures
        r@ == sentence(s@),
{
    let chars = text::chars(s);
    if chars.len() == 0 {
        let none = String::new();
        assert(none@ =~= seq![]);
        return none;
    }
    let mut out = char_to_uppercase(chars[0]);
    let rest = vstd::slice::slice_subrange(chars.as_slice(), 1, chars.len());
    assert(rest@ =~= s@.skip(1));
    out.append(text::string(rest).as_str());
    out.append(".");
    out
}

// ---------------------------------------------------------------------------------------------
// Receiving
// ---------------------------------------------------------------------------------------------

/// A form that is being received.
#[derive(Debug)]
pub struct Upload {
    pub file_name: String,
    pub bytes: u64,
    pub fields: Fields,
}

pub open spec fn too_large(max_bytes: u64) -> Seq<char> {
    "The file is larger than "@ + text::decimal(max_bytes as nat / (1024 * 1024)) + " MB."@
}

impl Upload {
    pub fn new() -> (r: Upload)
        ensures
            r.file_name@ == ""@,
            r.bytes == 0,
            r.fields.fields@ == Seq::<forms::Field>::empty(),
    {
        Upload { file_name: "".to_string(), bytes: 0, fields: Fields::new() }
    }

    /// Counts a piece of the file that came in. It is kept only if the file is not too large
    /// with it.
    pub fn receive(&mut self, piece: u64, max_bytes: u64) -> (r: Result<(), String>)
        ensures
            final(self).file_name == old(self).file_name,
            final(self).fields == old(self).fields,
            match r {
                Ok(()) => old(self).bytes + piece <= max_bytes && final(self).bytes == old(self).bytes
                    + piece,
                Err(problem) => old(self).bytes + piece > max_bytes && final(self).bytes == old(
                    self,
                ).bytes && problem@ == too_large(max_bytes),
            },
    {
        if self.bytes > max_bytes || piece > max_bytes - self.bytes {
            let mut out = "The file is larger than ".to_string();
            text::push_decimal(&mut out, max_bytes / (1024 * 1024));
            out.append(" MB.");
            return Err(out);
        }
        self.bytes = self.bytes + piece;
        Ok(())
    }

    /// Whether there is a file once everything came in.
    pub fn received(&self, got_file: bool) -> (r: Result<(), String>)
        ensures
            match r {
                Ok(()) => got_file && self.bytes > 0,
                Err(problem) => !(got_file && self.bytes > 0) && problem@
                    == "Choose a file to upload."@,
            },
    {
        if got_file && self.bytes > 0 {
            Ok(())
        } else {
            Err("Choose a file to upload.".to_string())
        }
    }
}

/// What a file is, by the end of its name.
pub open spec fn kind_of(name: Seq<char>) -> Option<Source> {
    let small = text::lower(name);
    if text::ends_with(small, ".gcode"@) {
        Some(Source::Gcode)
    } else if text::ends_with(small, ".stl"@) {
        Some(Source::Stl)
    } else {
        None
    }
}

pub fn upload_kind(name: &str) -> (r: Result<Source, String>)
    ensures
        match r {
            Ok(source) => kind_of(name@) == Some(source),
            Err(problem) => kind_of(name@) is None && problem@
                == "Upload an .stl model or a .gcode file sliced for the Centauri Carbon 2."@,
        },
{
    let small = text::lower_chars(text::chars(name).as_slice());
    if text::has_suffix(small.as_slice(), text::chars(".gcode").as_slice()) {
        Ok(Source::Gcode)
    } else if text::has_suffix(small.as_slice(), text::chars(".stl").as_slice()) {
        Ok(Source::Stl)
    } else {
        Err(
            "Upload an .stl model or a .gcode file sliced for the Centauri Carbon 2.".to_string(),
        )
    }
}

// ---------------------------------------------------------------------------------------------
// G-code
// ---------------------------------------------------------------------------------------------

pub open spec fn for_another_printer(model: Seq<char>) -> bool {
    model.len() > 0 && text::find_part(model, "Centauri Carbon 2"@, 0) == -1
}

/// What is wrong with a G-code file.
pub open spec fn gcode_problem(info: GcodeInfo) -> Option<Seq<char>> {
    if for_another_printer(info.printer_model@) {
        Some(
            "This file was sliced for "@ + info.printer_model@ + ", not the Centauri Carbon 2."@,
        )
    } else if dispatcher::total_mg(info.tools@) <= 0 {
        Some(
            "The file does not say how much filament it uses, so it cannot be matched to spools."@,
        )
    } else {
        None
    }
}

pub open spec fn is_gcode_job(job: NewJob, user: User, name: Seq<char>) -> bool {
    &&& job.owner.0 == user.id
    &&& job.owner.1@ == user.username@
    &&& job.name@ == name
    &&& job.source == Source::Gcode
    &&& job.process_profile is None
    &&& job.filament_profile is None
    &&& job.supports is None
    &&& job.infill_percent is None
    &&& job.scale_percent is None
}

/// The job that a G-code file makes, or what its uploader can fix.
pub fn create_gcode_job(info: &GcodeInfo, user: &User, file_name: &str) -> (r: Result<
    NewJob,
    String,
>)
    ensures
        match r {
            Ok(job) => gcode_problem(*info) is None && is_gcode_job(job, *user, file_name@),
            Err(problem) => gcode_problem(*info) == Some(problem@),
        },
{
    let model = text::chars(info.printer_model.as_str());
    let ours = text::find_slice(
        model.as_slice(),
        text::chars("Centauri Carbon 2").as_slice(),
        0,
    ).is_some();
    if model.len() > 0 && !ours {
        let mut out = "This file was sliced for ".to_string();
        out.append(info.printer_model.as_str());
        out.append(", not the Centauri Carbon 2.");
        return Err(out);
    }
    if !dispatcher::uses_filament(info) {
        return Err(
            "The file does not say how much filament it uses, so it cannot be matched to spools.".to_string(),
        );
    }
    Ok(
        NewJob {
            owner: (user.id, user.username.clone()),
            name: file_name.to_string(),
            source: Source::Gcode,
            process_profile: None,
            filament_profile: None,
            supports: None,
            infill_percent: None,
            scale_percent: None,
        },
    )
}

// ---------------------------------------------------------------------------------------------
// Models
// ---------------------------------------------------------------------------------------------

/// A number with a point where a comma may stand.
pub open spec fn with_points(s: Seq<char>) -> Seq<char> {
    s.map_values(
        |c: char|
            if c == ',' {
                '.'
            } else {
                c
            },
    )
}

fn to_points(s: &[char]) -> (r: Vec<char>)
    ensures
        r@ == with_points(s@),
{
    let mut out: Vec<char> = Vec::new();
    let mut i: usize = 0;
    while i < s.len()
        invariant
            i <= s@.len(),
            out@.len() == i,
            forall|k: int|
                0 <= k < i ==> #[trigger] out@[k] == if s@[k] == ',' {
                    '.'
                } else {
                    s@[k]
                },
        decreases s.len() - i,
    {
        if s[i] == ',' {
            out.push('.');
        } else {
            out.push(s[i]);
        }
        i += 1;
    }
    assert(out@ =~= with_points(s@));
    out
}

/// A scale within the slicer's bounds.
pub open spec fn within_bounds(scale: int) -> u64 {
    if scale < slicer::SCALE_MIN {
        slicer::SCALE_MIN
    } else if scale > slicer::SCALE_MAX {
        slicer::SCALE_MAX
    } else {
        scale as u64
    }
}

/// The scale that a text gives; blank means the model's own size.
pub open spec fn scale_of(raw: Seq<char>) -> Option<u64> {
    if raw.len() == 0 {
        Some(slicer::SCALE_MAX)
    } else {
        match decimal::written(with_points(text::drop_trailing(raw, '%'))) {
            Some(number) if !number.negative && float::reaches_one(number)
                && !float::exceeds_hundred(number) => Some(
                if float::reaches_hundred(number) {
                    slicer::SCALE_MAX
                } else {
                    within_bounds(number.floor(16) + if number.rounds_up(16) { 1int } else { 0 })
                },
            ),
            _ => None,
        }
    }
}

pub open spec fn scale_refusal() -> Seq<char> {
    "Scale is a percentage from "@ + text::decimal((slicer::SCALE_MIN / slicer::SCALE_PERCENT) as nat) + " to "@
        + text::decimal((slicer::SCALE_MAX / slicer::SCALE_PERCENT) as nat) + "."@
}

/// Percent, blank meaning 100. Kept inside the slicer's own bounds, which today stop at 100: see
/// `slicer::SCALE_MAX`.
pub fn parse_scale(raw: &str) -> (r: Result<u64, String>)
    ensures
        match r {
            Ok(scale) => scale_of(raw@) == Some(scale),
            Err(problem) => scale_of(raw@) is None && problem@ == scale_refusal(),
        },
{
    if raw.is_empty() {
        return Ok(slicer::SCALE_MAX);
    }
    let chars = text::chars(raw);
    let bare = text::without_trailing(chars.as_slice(), '%');
    let number = to_points(bare);
    let read = match (decimal::read_scaled(number.as_slice(), 16), float::reach(number.as_slice())) {
        (Some(scaled), Some(reach)) => if !scaled.negative && reach.one && !reach.beyond_hundred {
            Some(
                match scaled.floor {
                    Some(floor) if !reach.hundred => {
                        let scale: u64 = floor + if scaled.rounds_up {
                            1
                        } else {
                            0
                        };
                        if scale < slicer::SCALE_MIN {
                            slicer::SCALE_MIN
                        } else if scale > slicer::SCALE_MAX {
                            slicer::SCALE_MAX
                        } else {
                            scale
                        }
                    },
                    _ => slicer::SCALE_MAX,
                },
            )
        } else {
            None
        },
        _ => None,
    };
    match read {
        Some(scale) => Ok(scale),
        None => {
            let mut out = "Scale is a percentage from ".to_string();
            text::push_decimal(&mut out, slicer::SCALE_MIN / slicer::SCALE_PERCENT);
            out.append(" to ");
            text::push_decimal(&mut out, slicer::SCALE_MAX / slicer::SCALE_PERCENT);
            out.append(".");
            Err(out)
        },
    }
}

pub open spec fn profile_for(material: Seq<char>) -> Seq<char> {
    "Elegoo "@ + text::trim(material) + " @ECC2"@
}

/// The first name from position `i` on that differs from a wanted one in case at most.
pub open spec fn name_at(names: Seq<Seq<char>>, wanted: Seq<char>, i: int) -> Option<Seq<char>>
    decreases names.len() - i,
{
    if i < 0 || i >= names.len() {
        None
    } else if text::lower(names[i]) == text::lower(wanted) {
        Some(names[i])
    } else {
        name_at(names, wanted, i + 1)
    }
}

/// Elegoo's profile for the spool's material.
pub fn default_filament(filaments: &Vec<String>, spool: &Spool) -> (r: Option<String>)
    ensures
        text::opt_view(r) == name_at(
            text::views(filaments@),
            profile_for(spool.material@),
            0,
        ),
{
    let ghost names = text::views(filaments@);
    let mut wanted = "Elegoo ".to_string();
    wanted.append(text::trim_str(spool.material.as_str()).as_str());
    wanted.append(" @ECC2");
    let wanted_chars = text::chars(wanted.as_str());
    let mut i: usize = 0;
    while i < filaments.len()
        invariant
            i <= filaments@.len(),
            names == text::views(filaments@),
            wanted_chars@ == profile_for(spool.material@),
            name_at(names, wanted_chars@, 0) == name_at(names, wanted_chars@, i as int),
        decreases filaments.len() - i,
    {
        let name = text::chars(filaments[i].as_str());
        if text::same_ignoring_case(name.as_slice(), wanted_chars.as_slice()) {
            return Some(filaments[i].clone());
        }
        i += 1;
    }
    None
}

/// What can be chosen to slice with.
#[derive(Debug)]
pub struct Profiles {
    pub nozzle: Nozzle,
    pub processes: Vec<String>,
    pub filaments: Vec<String>,
}

/// A model to be sliced and printed.
#[derive(Debug)]
pub struct StlOrder {
    pub settings: SliceSettings,
    pub spool_id: i64,
    /// In the units of `slicer::SCALE_PERCENT`.
    pub scale: u64,
    pub auto_orient: bool,
}

pub ghost struct StlOrderShown {
    pub spool: Spool,
    pub plate: Plate,
    pub process: Seq<char>,
    pub filament: Seq<char>,
    pub infill: int,
    pub scale: u64,
}

/// The spool that a form names, if it is in use.
pub open spec fn chosen_spool(fields: Fields, spools: Seq<Spool>) -> Option<Spool> {
    match text::parsed_signed(text::trim(fields.value("spool_id"@))) {
        None => None,
        Some(id) => {
            let i = inventory::spool_at(spools, id as i64, 0);
            if i < spools.len() && !spools[i].archived {
                Some(spools[i])
            } else {
                None
            }
        },
    }
}

pub open spec fn infill_of(raw: Seq<char>) -> Option<int> {
    match text::parsed_unsigned(text::drop_trailing(raw, '%'), 255) {
        Some(percent) if percent <= 100 => Some(percent as int),
        _ => None,
    }
}

/// The filament profile that a form names, or the one for the spool's material.
pub open spec fn chosen_filament(
    fields: Fields,
    filaments: Seq<Seq<char>>,
    spool: Spool,
) -> Option<Seq<char>> {
    let named = text::trim(fields.value("filament"@));
    if named.len() == 0 {
        name_at(filaments, profile_for(spool.material@), 0)
    } else {
        Some(named)
    }
}

/// What a form orders, or what its sender can fix.
pub open spec fn stl_order(
    fields: Fields,
    processes: Seq<Seq<char>>,
    filaments: Seq<Seq<char>>,
    spools: Seq<Spool>,
) -> Result<StlOrderShown, Seq<char>> {
    match chosen_spool(fields, spools) {
        None => Err("Choose the spool to print with."@),
        Some(spool) => {
            let process = text::trim(fields.value("process"@));
            match Plate::named(text::trim(fields.value("plate"@))) {
                None => Err("Choose the build plate."@),
                Some(plate) => if !processes.contains(process) {
                    Err("Choose a print profile."@)
                } else {
                    match chosen_filament(fields, filaments, spool) {
                        None => Err(
                            "No filament profile matches "@ + spool.material@ + ". Choose one."@,
                        ),
                        Some(filament) => if !filaments.contains(filament) {
                            Err("Choose a filament profile."@)
                        } else {
                            match (
                                infill_of(text::trim(fields.value("infill"@))),
                                scale_of(text::trim(fields.value("scale_percent"@))),
                            ) {
                                (None, _) => Err("Infill is a percentage from 0 to 100."@),
                                (_, None) => Err(scale_refusal()),
                                (Some(infill), Some(scale)) => Ok(
                                    StlOrderShown {
                                        spool,
                                        plate,
                                        process,
                                        filament,
                                        infill,
                                        scale,
                                    },
                                ),
                            }
                        },
                    }
                },
            }
        },
    }
}

impl StlOrder {
    pub open spec fn is(self, shown: StlOrderShown, nozzle: Nozzle, fields: Fields) -> bool {
        &&& self.settings.nozzle == nozzle
        &&& self.settings.plate == shown.plate
        &&& self.settings.process@ == shown.process
        &&& self.settings.filament@ == shown.filament
        &&& self.settings.color_hex@ == shown.spool.color_hex@
        &&& self.settings.supports == (fields.get_spec("supports"@) is Some)
        &&& self.settings.infill_percent == shown.infill
        &&& self.spool_id == shown.spool.id
        &&& self.scale == shown.scale
        &&& self.auto_orient == (fields.get_spec("auto_orient"@) is Some)
    }

    /// The job that the order makes.
    pub open spec fn is_job(self, job: NewJob, user: User, name: Seq<char>) -> bool {
        &&& job.owner.0 == user.id
        &&& job.owner.1@ == user.username@
        &&& job.name@ == name
        &&& job.source == Source::Stl
        &&& text::opt_view(job.process_profile) == Some(self.settings.process@)
        &&& text::opt_view(job.filament_profile) == Some(self.settings.filament@)
        &&& job.supports == Some(self.settings.supports)
        &&& job.infill_percent == Some(self.settings.infill_percent)
        &&& job.scale_percent == if self.scale != slicer::SCALE_MAX {
            Some(self.scale)
        } else {
            None::<u64>
        }
    }

    pub fn job(&self, user: &User, file_name: &str) -> (r: NewJob)
        ensures
            self.is_job(r, *user, file_name@),
    {
        NewJob {
            owner: (user.id, user.username.clone()),
            name: file_name.to_string(),
            source: Source::Stl,
            process_profile: Some(self.settings.process.clone()),
            filament_profile: Some(self.settings.filament.clone()),
            supports: Some(self.settings.supports),
            infill_percent: Some(self.settings.infill_percent),
            scale_percent: if self.scale != slicer::SCALE_MAX {
                Some(self.scale)
            } else {
                None
            },
        }
    }
}

fn holds(names: &Vec<String>, wanted: &str) -> (r: bool)
    ensures
        r == text::views(names@).contains(wanted@),
{
    let ghost all = text::views(names@);
    let mut i: usize = 0;
    while i < names.len()
        invariant
            i <= names@.len(),
            all == text::views(names@),
            forall|k: int| 0 <= k < i ==> #[trigger] all[k] != wanted@,
        decreases names.len() - i,
    {
        if text::same(names[i].as_str(), wanted) {
            assert(all[i as int] == wanted@);
            return true;
        }
        i += 1;
    }
    false
}

fn find_chosen_spool(fields: &Fields, db: &Inventory) -> (r: Option<Spool>)
    ensures
        r == chosen_spool(*fields, db.spools@),
{
    let raw = text::chars(fields.trimmed("spool_id").as_str());
    match text::parse_signed(raw.as_slice()) {
        None => None,
        Some(id) => match inventory::spool(db, id) {
            Some(spool) => if spool.archived {
                None
            } else {
                Some(spool)
            },
            None => None,
        },
    }
}

fn read_infill(fields: &Fields) -> (r: Option<u8>)
    ensures
        match (r, infill_of(text::trim(fields.value("infill"@)))) {
            (Some(infill), Some(shown)) => infill == shown,
            (None, None) => true,
            _ => false,
        },
{
    let raw = text::chars(fields.trimmed("infill").as_str());
    match text::parse_unsigned(text::without_trailing(raw.as_slice(), '%'), 255) {
        Some(percent) if percent <= 100 => Some(percent as u8),
        _ => None,
    }
}

/// What a form orders to be sliced, or what its sender can fix. `profiles` are missing where the
/// server cannot slice.
pub fn create_stl_job(fields: &Fields, profiles: &Option<Profiles>, db: &Inventory) -> (r: Result<
    StlOrder,
    String,
>)
    ensures
        match profiles {
            None => r matches Err(problem) && problem@
                == "This server cannot slice models. Upload G-code sliced for the Centauri Carbon 2."@,
            Some(profiles) => match (
                r,
                stl_order(
                    *fields,
                    text::views(profiles.processes@),
                    text::views(profiles.filaments@),
                    db.spools@,
                ),
            ) {
                (Ok(order), Ok(shown)) => order.is(shown, profiles.nozzle, *fields),
                (Err(problem), Err(shown)) => problem@ == shown,
                _ => false,
            },
        },
{
    let profiles = match profiles {
        None => {
            return Err(
                "This server cannot slice models. Upload G-code sliced for the Centauri Carbon 2.".to_string(),
            );
        },
        Some(profiles) => profiles,
    };
    let spool = match find_chosen_spool(fields, db) {
        None => {
            return Err("Choose the spool to print with.".to_string());
        },
        Some(spool) => spool,
    };
    let plate = match Plate::parse(fields.trimmed("plate").as_str()) {
        None => {
            return Err("Choose the build plate.".to_string());
        },
        Some(plate) => plate,
    };
    let process = fields.trimmed("process");
    if !holds(&profiles.processes, process.as_str()) {
        return Err("Choose a print profile.".to_string());
    }
    let named = fields.trimmed("filament");
    let filament = if named.as_str().is_empty() {
        match default_filament(&profiles.filaments, &spool) {
            None => {
                let mut out = "No filament profile matches ".to_string();
                out.append(spool.material.as_str());
                out.append(". Choose one.");
                return Err(out);
            },
            Some(filament) => filament,
        }
    } else {
        named
    };
    if !holds(&profiles.filaments, filament.as_str()) {
        return Err("Choose a filament profile.".to_string());
    }
    let infill = match read_infill(fields) {
        None => {
            return Err("Infill is a percentage from 0 to 100.".to_string());
        },
        Some(infill) => infill,
    };
    let scale = match parse_scale(fields.trimmed("scale_percent").as_str()) {
        Err(problem) => {
            return Err(problem);
        },
        Ok(scale) => scale,
    };
    Ok(
        StlOrder {
            settings: SliceSettings {
                nozzle: profiles.nozzle,
                plate,
                process,
                filament,
                color_hex: spool.color_hex.clone(),
                supports: fields.has("supports"),
                infill_percent: infill,
            },
            spool_id: spool.id,
            scale,
            auto_orient: fields.has("auto_orient"),
        },
    )
}

// ---------------------------------------------------------------------------------------------
// The form
// ---------------------------------------------------------------------------------------------

#[derive(Debug)]
pub struct NewJobPage {
    pub stl_enabled: bool,
    /// The mounted nozzle, which models are sliced for.
    pub nozzle: &'static str,
    pub max_mb: u64,
    pub spools: Vec<Choice>,
    pub plates: Vec<Choice>,
    pub processes: Vec<Choice>,
    pub filaments: Vec<Choice>,
    pub supports: bool,
    pub auto_orient: bool,
    pub infill: String,
    pub scale_percent: String,
    pub error: Option<String>,
}

/// What a spool is called where it is chosen.
pub open spec fn spool_choice(spool: Spool) -> Seq<char> {
    views::spool_title(spool) + " ("@ + views::grams_text(spool.remaining_mg as int) + " left)"@
}

pub fn spool_choice_name(spool: &Spool) -> (r: String)
    ensures
        r@ == spool_choice(*spool),
{
    let mut out = views::spool_name(spool);
    out.append(" (");
    out.append(views::grams(spool.remaining_mg).as_str());
    out.append(" left)");
    out
}

pub open spec fn are_spools(choices: Seq<Choice>, spools: Seq<Spool>, wanted: Seq<char>) -> bool {
    choices.len() == spools.len() && forall|i: int|
        0 <= i < choices.len() ==> (#[trigger] choices[i]).is(
            text::decimal_int(spools[i].id as int),
            spool_choice(spools[i]),
            wanted == text::decimal_int(spools[i].id as int),
        )
}

fn spool_choices(spools: &Vec<Spool>, wanted: &str) -> (r: Vec<Choice>)
    ensures
        are_spools(r@, spools@, wanted@),
{
    let mut out: Vec<Choice> = Vec::new();
    let mut i: usize = 0;
    while i < spools.len()
        invariant
            i <= spools@.len(),
            out@.len() == i,
            forall|k: int|
                0 <= k < i ==> (#[trigger] out@[k]).is(
                    text::decimal_int(spools@[k].id as int),
                    spool_choice(spools@[k]),
                    wanted@ == text::decimal_int(spools@[k].id as int),
                ),
        decreases spools.len() - i,
    {
        let spool = &spools[i];
        let value = text::decimal_int_string(spool.id);
        let selected = text::same(wanted, value.as_str());
        out.push(Choice { value, name: spool_choice_name(spool), selected });
        i += 1;
    }
    out
}

/// The plates to choose from; the first unless another is wanted.
pub open spec fn are_plates(choices: Seq<Choice>, wanted: Seq<char>) -> bool {
    &&& choices.len() == 2
    &&& choices[0].is(
        Plate::TexturedPei.name(),
        Plate::TexturedPei.name(),
        Plate::named(wanted) != Some(Plate::HighTemp),
    )
    &&& choices[1].is(
        Plate::HighTemp.name(),
        Plate::HighTemp.name(),
        Plate::named(wanted) == Some(Plate::HighTemp),
    )
}

fn plate_choices(wanted: &str) -> (r: Vec<Choice>)
    ensures
        are_plates(r@, wanted@),
{
    let wanted = Plate::parse(wanted);
    let mut out: Vec<Choice> = Vec::new();
    let mut i: usize = 0;
    while i < 2
        invariant
            i <= 2,
            out@.len() == i,
            forall|k: int|
                0 <= k < i ==> (#[trigger] out@[k]).is(
                    Plate::ALL@[k].name(),
                    Plate::ALL@[k].name(),
                    match wanted {
                        Some(plate) => plate == Plate::ALL@[k],
                        None => k == 0,
                    },
                ),
        decreases 2 - i,
    {
        let plate = Plate::ALL[i];
        let selected = match wanted {
            Some(wanted) => wanted == plate,
            None => i == 0,
        };
        out.push(
            Choice {
                value: plate.as_str().to_string(),
                name: plate.as_str().to_string(),
                selected,
            },
        );
        i += 1;
    }
    out
}

pub open spec fn or_default(value: Seq<char>, default: Seq<char>) -> Seq<char> {
    if value.len() == 0 {
        default
    } else {
        value
    }
}

fn text_or(value: String, default: &str) -> (r: String)
    ensures
        r@ == or_default(value@, default@),
{
    if value.as_str().is_empty() {
        default.to_string()
    } else {
        value
    }
}

impl NewJobPage {
    pub open spec fn shows(
        self,
        fields: Fields,
        nozzle: Nozzle,
        profiles: Option<Profiles>,
        max_bytes: u64,
        spools: Seq<Spool>,
    ) -> bool {
        &&& self.stl_enabled == profiles is Some
        &&& self.nozzle@ == nozzle.name()
        &&& self.max_mb == max_bytes as nat / (1024 * 1024)
        &&& are_spools(self.spools@, spools, fields.value("spool_id"@))
        &&& are_plates(self.plates@, fields.value("plate"@))
        &&& match profiles {
            Some(profiles) => {
                &&& forms::are_names(
                    self.processes@,
                    text::views(profiles.processes@),
                    or_default(
                        fields.value("process"@),
                        slicer::standard_process(nozzle),
                    ),
                )
                &&& forms::are_names(
                    self.filaments@,
                    text::views(profiles.filaments@),
                    fields.value("filament"@),
                )
            },
            None => self.processes@.len() == 0 && self.filaments@.len() == 0,
        }
        &&& self.supports == (fields.get_spec("supports"@) is Some)
        &&& self.auto_orient == (fields.get_spec("auto_orient"@) is Some)
        &&& self.infill@ == or_default(fields.value("infill"@), DEFAULT_INFILL@)
        &&& self.scale_percent@ == or_default(fields.value("scale_percent"@), DEFAULT_SCALE@)
    }
}

/// The upload form, filled in as it was sent. Its status is 400 where it says what went wrong.
pub fn new_job_form(
    fields: &Fields,
    nozzle: Nozzle,
    profiles: &Option<Profiles>,
    max_bytes: u64,
    db: &Inventory,
    error: Option<String>,
) -> (r: (u16, NewJobPage))
    ensures
        r.1.shows(
            *fields,
            nozzle,
            *profiles,
            max_bytes,
            crate::order::sorted(
                db.spools@.filter(inventory::on_the_shelf(false)),
                inventory::shelf_order(),
            ),
        ),
        r.1.error == error,
        r.0 == if error is Some {
            400u16
        } else {
            200
        },
{
    let (processes, filaments) = match profiles {
        Some(profiles) => {
            let standard = slicer::default_process(nozzle);
            let wanted = text_or(fields.text("process"), standard.as_str());
            (
                forms::name_choices(&profiles.processes, wanted.as_str()),
                forms::name_choices(&profiles.filaments, fields.text("filament").as_str()),
            )
        },
        None => (Vec::new(), Vec::new()),
    };
    let spools = inventory::spools(db, false);
    let status: u16 = if error.is_some() {
        400
    } else {
        200
    };
    let page = NewJobPage {
        stl_enabled: profiles.is_some(),
        nozzle: nozzle.as_str(),
        max_mb: max_bytes / (1024 * 1024),
        spools: spool_choices(&spools, fields.text("spool_id").as_str()),
        plates: plate_choices(fields.text("plate").as_str()),
        processes,
        filaments,
        supports: fields.has("supports"),
        auto_orient: fields.has("auto_orient"),
        infill: text_or(fields.text("infill"), DEFAULT_INFILL),
        scale_percent: text_or(fields.text("scale_percent"), DEFAULT_SCALE),
        error,
    };
    (status, page)
}

/// Infill is a whole number of percent up to 100, with or without the sign.
pub proof fn infill_is_a_whole_percentage(digits: Seq<char>)
    requires
        digits.len() > 0,
        text::all_digits(digits),
    ensures
        ({
            let n = text::digits_value(digits) as int;
            let read = if n <= 100 {
                Some(n)
            } else {
                None
            };
            infill_of(digits) == read && infill_of(digits.push('%')) == read
        }),
{
    assert(text::is_digit(digits[0]));
    assert(text::is_digit(digits.last()));
    assert(digits.push('%').drop_last() =~= digits);
    assert(text::drop_trailing(digits, '%') == digits);
}

/// A model is printed in the size that the form gives in percent, from 1 to 100, and in its own
/// where the form gives none; 100 percent are `10^18`.
pub proof fn models_are_scaled_as_the_form_says(digits: Seq<char>)
    requires
        digits.len() > 0,
        text::all_digits(digits),
    ensures
        ({
            let n = text::digits_value(digits) as int;
            match scale_of(digits) {
                Some(scale) => 1 <= n <= 100 && scale == n * 10_000_000_000_000_000,
                None => n == 0 || n > 100,
            }
        }),
        scale_of(seq![]) == Some(1_000_000_000_000_000_000u64),
{
    let n = text::digits_value(digits);
    assert(text::is_digit(digits[0]));
    assert(text::is_digit(digits.last()));
    assert(text::drop_trailing(digits, '%') == digits);
    assert forall|i: int| 0 <= i < digits.len() implies #[trigger] with_points(digits)[i]
        == digits[i] by {
        assert(text::is_digit(digits[i]));
    }
    assert(with_points(digits) =~= digits);
    decimal::lemma_digits_end(digits, 0);
    let end = decimal::digits_end(digits, 0);
    if end < digits.len() {
        assert(text::is_digit(digits[end]));
    }
    assert(digits.subrange(0, end) + digits.subrange(end, end) =~= digits);
    let number = decimal::Written { negative: false, digits, scale: 0 };
    assert(decimal::written(digits) == Some(number));
    assert(decimal::pow10(0) == 1);
    reveal_with_fuel(decimal::pow10, 18);
    assert(decimal::pow10(16) == 10_000_000_000_000_000);
    reveal(decimal::floor_of);
    reveal(decimal::rounds_up_at);
    vstd::arithmetic::power2::lemma_pow2_pos(47);
    vstd::arithmetic::power2::lemma_pow2_pos(54);
    vstd::arithmetic::power2::lemma_pow2_pos(46);
    vstd::arithmetic::power2::lemma_pow2_unfold(47);
    let p = vstd::arithmetic::power2::pow2(47);
    let q = vstd::arithmetic::power2::pow2(54);
    assert(p >= 2 && q >= 1);
    assert forall|m: nat| #[trigger] (m * decimal::pow10(0)) == m by {
        assert(m * decimal::pow10(0) == m) by (nonlinear_arith)
            requires
                decimal::pow10(0) == 1,
        ;
    }
    assert(float::reaches_one(number) <==> n * q > q - 2);
    assert(float::exceeds_hundred(number) <==> n * p > 100 * p + 1);
    assert(float::reaches_hundred(number) <==> n * p > 100 * p - 2);
    if n == 0 {
        assert(n * q == 0) by (nonlinear_arith)
            requires
                n == 0,
        ;
        vstd::arithmetic::power2::lemma_pow2_pos(53);
        vstd::arithmetic::power2::lemma_pow2_unfold(54);
    } else if n <= 100 {
        assert(n * q >= q && n * p <= 100 * p) by (nonlinear_arith)
            requires
                1 <= n <= 100,
        ;
        if n < 100 {
            assert(n * p <= 99 * p) by (nonlinear_arith)
                requires
                    n <= 99,
            ;
        }
        assert(n * 10_000_000_000_000_000 <= 1_000_000_000_000_000_000);
    } else {
        assert(n * p >= 101 * p) by (nonlinear_arith)
            requires
                n >= 101,
        ;
    }
}

/// Whatever is filled in, no model is printed larger than it is, nor smaller than a hundredth.
pub proof fn scales_stay_in_their_range(raw: Seq<char>)
    ensures
        scale_of(raw) matches Some(scale) ==> 10_000_000_000_000_000 <= scale
            <= 1_000_000_000_000_000_000,
{
}

/// Files are told apart by their extension, in capitals or not.
pub proof fn files_are_told_apart_by_their_extension(stem: Seq<char>, a: Seq<char>, b: Seq<char>)
    ensures
        kind_of(stem + ".gcode"@) == Some(Source::Gcode),
        kind_of(stem + ".stl"@) == Some(Source::Stl),
        text::lower(a) == text::lower(b) ==> kind_of(a) == kind_of(b),
        kind_of(a) is Some ==> a.len() >= 4 && text::lower(a).contains('.'),
{
    reveal_strlit(".gcode");
    reveal_strlit(".stl");
    let g = stem + ".gcode"@;
    let s = stem + ".stl"@;
    assert(text::lower(g).skip(g.len() - 6) =~= ".gcode"@);
    assert(text::lower(s).skip(s.len() - 4) =~= ".stl"@);
    if text::ends_with(text::lower(s), ".gcode"@) {
        assert(text::lower(s).last() == 'l');
        assert(text::lower(s).skip(s.len() - 6).last() == text::lower(s).last());
    }
    let small = text::lower(a);
    if text::ends_with(small, ".gcode"@) {
        assert(small.skip(small.len() - 6)[0] == '.');
        assert(small[small.len() - 6] == '.');
    } else if text::ends_with(small, ".stl"@) {
        assert(small.skip(small.len() - 4)[0] == '.');
        assert(small[small.len() - 4] == '.');
    }
}

/// An order is taken exactly where every choice is there and is one of those on offer, and then
/// holds just what was chosen.
pub proof fn an_order_holds_what_was_chosen(
    fields: Fields,
    processes: Seq<Seq<char>>,
    filaments: Seq<Seq<char>>,
    spools: Seq<Spool>,
)
    ensures
        match stl_order(fields, processes, filaments, spools) {
            Ok(order) => {
                &&& spools.contains(order.spool) && !order.spool.archived
                &&& text::parsed_signed(text::trim(fields.value("spool_id"@))) == Some(
                    order.spool.id as int,
                )
                &&& order.plate.name() == text::trim(fields.value("plate"@))
                &&& processes.contains(order.process) && order.process == text::trim(
                    fields.value("process"@),
                )
                &&& filaments.contains(order.filament)
                &&& text::trim(fields.value("filament"@)).len() > 0 ==> order.filament
                    == text::trim(fields.value("filament"@))
                &&& text::trim(fields.value("filament"@)).len() == 0 ==> text::lower(order.filament)
                    == text::lower("Elegoo "@ + text::trim(order.spool.material@) + " @ECC2"@)
                &&& infill_of(text::trim(fields.value("infill"@))) == Some(order.infill)
                &&& scale_of(text::trim(fields.value("scale_percent"@))) == Some(order.scale)
            },
            Err(_) => {
                ||| chosen_spool(fields, spools) is None
                ||| Plate::named(text::trim(fields.value("plate"@))) is None
                ||| !processes.contains(text::trim(fields.value("process"@)))
                ||| text::trim(fields.value("filament"@)).len() > 0 && !filaments.contains(
                    text::trim(fields.value("filament"@)),
                )
                ||| text::trim(fields.value("filament"@)).len() == 0 && forall|k: int|
                    0 <= k < filaments.len() ==> text::lower(#[trigger] filaments[k])
                        != text::lower(
                        "Elegoo "@ + text::trim(chosen_spool(fields, spools)->0.material@)
                            + " @ECC2"@,
                    )
                ||| infill_of(text::trim(fields.value("infill"@))) is None
                ||| scale_of(text::trim(fields.value("scale_percent"@))) is None
            },
        },
{
    if let Some(id) = text::parsed_signed(text::trim(fields.value("spool_id"@))) {
        inventory::lemma_spool_at(spools, id as i64, 0);
    }
    if let Some(spool) = chosen_spool(fields, spools) {
        lemma_name_at(filaments, profile_for(spool.material@), 0);
        if let Some(plate) = Plate::named(text::trim(fields.value("plate"@))) {
            slicer::plate_names_round_trip(plate, text::trim(fields.value("plate"@)));
        }
    }
}

proof fn lemma_name_at(names: Seq<Seq<char>>, wanted: Seq<char>, i: int)
    requires
        0 <= i <= names.len(),
    ensures
        match name_at(names, wanted, i) {
            Some(name) => names.contains(name) && text::lower(name) == text::lower(wanted),
            None => forall|k: int|
                i <= k < names.len() ==> text::lower(#[trigger] names[k]) != text::lower(wanted),
        },
    decreases names.len() - i,
{
    if i < names.len() {
        assert(names.contains(names[i]));
        lemma_name_at(names, wanted, i + 1);
    }
}

/// A spool can be printed with where the inventory has it and it is not archived.
pub proof fn archived_spools_cannot_be_chosen(fields: Fields, spools: Seq<Spool>, k: int)
    requires
        0 <= k < spools.len(),
        forall|j: int| 0 <= j < spools.len() && j != k ==> (#[trigger] spools[j]).id != spools[k].id,
        text::parsed_signed(text::trim(fields.value("spool_id"@))) == Some(spools[k].id as int),
    ensures
        chosen_spool(fields, spools) == if spools[k].archived {
            None
        } else {
            Some(spools[k])
        },
{
    inventory::lemma_spool_at(spools, spools[k].id, 0);
}

/// A sliced file is taken where it names no other printer and says what filament it uses.
pub proof fn sliced_files_are_for_this_printer(info: GcodeInfo, before: Seq<char>, after: Seq<char>)
    ensures
        info.printer_model@.len() == 0 || info.printer_model@ == before + "Centauri Carbon 2"@
            + after ==> (gcode_problem(info) is None <==> dispatcher::total_mg(info.tools@) > 0),
        gcode_problem(info) is None ==> info.printer_model@.len() == 0 || exists|i: int|
            0 <= i <= info.printer_model@.len() - 17 && #[trigger] info.printer_model@.subrange(
                i,
                i + 17,
            ) == "Centauri Carbon 2"@,
{
    reveal_strlit("Centauri Carbon 2");
    let model = info.printer_model@;
    let part = "Centauri Carbon 2"@;
    if model == before + part + after {
        assert(model.subrange(before.len() as int, before.len() as int + 17) =~= part);
        lemma_part_found(model, part, 0, before.len() as int);
    }
    lemma_part_is_there(model, part, 0);
}

proof fn lemma_part_found(s: Seq<char>, part: Seq<char>, from: int, at: int)
    requires
        0 <= from <= at <= s.len() - part.len(),
        s.subrange(at, at + part.len()) == part,
    ensures
        from <= text::find_part(s, part, from) <= at,
    decreases at - from,
{
    if from < at {
        lemma_part_found(s, part, from + 1, at);
    }
}

proof fn lemma_part_is_there(s: Seq<char>, part: Seq<char>, from: int)
    requires
        0 <= from <= s.len() + 1,
    ensures
        ({
            let at = text::find_part(s, part, from);
            at == -1 || from <= at <= s.len() - part.len() && s.subrange(at, at + part.len())
                == part
        }),
    decreases s.len() + 1 - from,
{
    if from + part.len() <= s.len() {
        lemma_part_is_there(s, part, from + 1);
    }
}

/// A file is called by what stands behind the last slash of its name, of either kind, without the
/// white space around it, and by 120 characters of it at most.
pub proof fn files_are_called_by_their_own_name(dir: Seq<char>, name: Seq<char>)
    requires
        forall|i: int| 0 <= i < name.len() ==> #[trigger] name[i] != '/' && name[i] != '\\',
    ensures
        text::trim(name).len() <= 120 ==> clean_name(name) == text::trim(name) && clean_name(
            dir.push('/') + name,
        ) == text::trim(name) && clean_name(dir.push('\\') + name) == text::trim(name),
        text::trim(name).len() > 120 ==> clean_name(name) == text::trim(name).take(120)
            && clean_name(dir.push('/') + name) == clean_name(name),
{
    lemma_component(seq![], name);
    lemma_component(dir.push('/'), name);
    lemma_component(dir.push('\\'), name);
    assert(Seq::<char>::empty() + name =~= name);
}

proof fn lemma_component(dir: Seq<char>, name: Seq<char>)
    requires
        dir.len() > 0 ==> is_separator(dir.last()),
        forall|i: int| 0 <= i < name.len() ==> !is_separator(#[trigger] name[i]),
    ensures
        last_component(dir + name) == name,
    decreases name.len(),
{
    let raw = dir + name;
    if name.len() > 0 {
        lemma_component(dir, name.drop_last());
        assert(raw.drop_last() =~= dir + name.drop_last());
        assert(raw.last() == name.last());
        assert(!is_separator(name[name.len() - 1]));
        assert(name.drop_last().push(name.last()) =~= name);
    } else {
        assert(raw =~= dir);
        assert(last_component(raw) =~= name);
    }
}

} // verus!

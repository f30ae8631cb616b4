//! Print jobs: their states, the queue, and whether the next one may start. Weights are in
//! milligrams, nozzle diameters in micrometres. Like `accounts`, functions take timestamps
//! rather than reading the clock.

use vstd::prelude::*;

use crate::accounts::{self, Accounts, Role, User};
use crate::cc2::client::{LinkState, PrinterSnapshot};
use crate::cc2::methods::SlotMapEntry;
use crate::cc2::model::{self, MachineState};
use crate::config::Nozzle;
use crate::gcode::{self, GcodeInfo, ToolUse};
use crate::inventory::{self, Binding, ConsumptionKind, Inventory, InventoryError};
use crate::lists;
use crate::num;
use crate::order;
use crate::schedule::{self, Rule, ScheduleBlock};
use crate::text;
use crate::zone::{self, Zone};

verus! {

#[derive(Debug, Clone, Copy, PartialEq, Eq, Structural)]
pub enum JobState {
    Slicing,
    AwaitingConfirm,
    Queued,
    Uploading,
    Printing,
    Done,
    Failed,
    Cancelled,
}

impl JobState {
    pub open spec fn name(self) -> Seq<char> {
        match self {
            JobState::Slicing => "slicing"@,
            JobState::AwaitingConfirm => "awaiting_confirm"@,
            JobState::Queued => "queued"@,
            JobState::Uploading => "uploading"@,
            JobState::Printing => "printing"@,
            JobState::Done => "done"@,
            JobState::Failed => "failed"@,
            JobState::Cancelled => "cancelled"@,
        }
    }

    pub open spec fn named(raw: Seq<char>) -> Option<JobState> {
        if raw == "slicing"@ {
            Some(JobState::Slicing)
        } else if raw == "awaiting_confirm"@ {
            Some(JobState::AwaitingConfirm)
        } else if raw == "queued"@ {
            Some(JobState::Queued)
        } else if raw == "uploading"@ {
            Some(JobState::Uploading)
        } else if raw == "printing"@ {
            Some(JobState::Printing)
        } else if raw == "done"@ {
            Some(JobState::Done)
        } else if raw == "failed"@ {
            Some(JobState::Failed)
        } else if raw == "cancelled"@ {
            Some(JobState::Cancelled)
        } else {
            None
        }
    }

    pub open spec fn title(self) -> Seq<char> {
        match self {
            JobState::Slicing => "Slicing"@,
            JobState::AwaitingConfirm => "Waiting for confirmation"@,
            JobState::Queued => "Queued"@,
            JobState::Uploading => "Sending to the printer"@,
            JobState::Printing => "Printing"@,
            JobState::Done => "Done"@,
            JobState::Failed => "Failed"@,
            JobState::Cancelled => "Cancelled"@,
        }
    }

    /// The steps that a job can take.
    pub open spec fn leads_to(self, next: JobState) -> bool {
        match self {
            JobState::Slicing => next == JobState::AwaitingConfirm || next == JobState::Failed
                || next == JobState::Cancelled,
            JobState::AwaitingConfirm => next == JobState::Queued || next == JobState::Cancelled,
            JobState::Queued => next == JobState::Uploading || next == JobState::Cancelled,
            JobState::Uploading => next == JobState::Printing || next == JobState::Queued || next
                == JobState::Failed,
            JobState::Printing => next == JobState::Done || next == JobState::Failed || next
                == JobState::Cancelled,
            JobState::Failed => next == JobState::Queued,
            JobState::Done => false,
            JobState::Cancelled => false,
        }
    }

    pub open spec fn ended(self) -> bool {
        self == JobState::Done || self == JobState::Failed || self == JobState::Cancelled
    }

    pub fn as_str(self) -> (r: &'static str)
        ensures
            r@ == self.name(),
    {
        match self {
            JobState::Slicing => "slicing",
            JobState::AwaitingConfirm => "awaiting_confirm",
            JobState::Queued => "queued",
            JobState::Uploading => "uploading",
            JobState::Printing => "printing",
            JobState::Done => "done",
            JobState::Failed => "failed",
            JobState::Cancelled => "cancelled",
        }
    }

    pub fn parse(raw: &str) -> (r: Option<JobState>)
        ensures
            r == JobState::named(raw@),
    {
        if text::same(raw, "slicing") {
            Some(JobState::Slicing)
        } else if text::same(raw, "awaiting_confirm") {
            Some(JobState::AwaitingConfirm)
        } else if text::same(raw, "queued") {
            Some(JobState::Queued)
        } else if text::same(raw, "uploading") {
            Some(JobState::Uploading)
        } else if text::same(raw, "printing") {
            Some(JobState::Printing)
        } else if text::same(raw, "done") {
            Some(JobState::Done)
        } else if text::same(raw, "failed") {
            Some(JobState::Failed)
        } else if text::same(raw, "cancelled") {
            Some(JobState::Cancelled)
        } else {
            None
        }
    }

    pub fn label(self) -> (r: &'static str)
        ensures
            r@ == self.title(),
    {
        match self {
            JobState::Slicing => "Slicing",
            JobState::AwaitingConfirm => "Waiting for confirmation",
            JobState::Queued => "Queued",
            JobState::Uploading => "Sending to the printer",
            JobState::Printing => "Printing",
            JobState::Done => "Done",
            JobState::Failed => "Failed",
            JobState::Cancelled => "Cancelled",
        }
    }

    pub fn can_become(self, next: JobState) -> (r: bool)
        ensures
            r == self.leads_to(next),
    {
        match self {
            JobState::Slicing => next == JobState::AwaitingConfirm || next == JobState::Failed
                || next == JobState::Cancelled,
            JobState::AwaitingConfirm => next == JobState::Queued || next == JobState::Cancelled,
            JobState::Queued => next == JobState::Uploading || next == JobState::Cancelled,
            JobState::Uploading => next == JobState::Printing || next == JobState::Queued || next
                == JobState::Failed,
            JobState::Printing => next == JobState::Done || next == JobState::Failed || next
                == JobState::Cancelled,
            JobState::Failed => next == JobState::Queued,
            JobState::Done => false,
            JobState::Cancelled => false,
        }
    }

    pub fn is_finished(self) -> (r: bool)
        ensures
            r == self.ended(),
    {
        self == JobState::Done || self == JobState::Failed || self == JobState::Cancelled
    }
}

/// A state is read back from its name, and from nothing else.
pub proof fn job_state_names_round_trip(state: JobState, raw: Seq<char>)
    ensures
        JobState::named(state.name()) == Some(state),
        JobState::named(raw) == Some(state) ==> raw == state.name(),
{
    reveal_strlit("slicing");
    reveal_strlit("awaiting_confirm");
    reveal_strlit("queued");
    reveal_strlit("uploading");
    reveal_strlit("printing");
    reveal_strlit("done");
    reveal_strlit("failed");
    reveal_strlit("cancelled");
    assert("slicing"@.len() == 7 && "awaiting_confirm"@.len() == 16 && "queued"@.len() == 6
        && "uploading"@.len() == 9 && "printing"@.len() == 8 && "done"@.len() == 4
        && "failed"@.len() == 6 && "cancelled"@.len() == 9);
    assert("queued"@[0] == 'q' && "failed"@[0] == 'f' && "uploading"@[0] == 'u' && "cancelled"@[0]
        == 'c');
}

/// Nothing goes back to slicing; what is done or cancelled stays so; what ends has been on its
/// way, and only a failed job is queued again.
pub proof fn job_states_move_forward(from: JobState, to: JobState)
    requires
        from.leads_to(to),
    ensures
        to != JobState::Slicing,
        from != JobState::Done && from != JobState::Cancelled,
        from.ended() ==> from == JobState::Failed && to == JobState::Queued,
        from != to,
{
}

#[derive(Debug, Clone, Copy, PartialEq, Eq, Structural)]
pub enum Source {
    Stl,
    Gcode,
}

impl Source {
    pub open spec fn name(self) -> Seq<char> {
        match self {
            Source::Stl => "stl"@,
            Source::Gcode => "gcode"@,
        }
    }

    pub fn as_str(self) -> (r: &'static str)
        ensures
            r@ == self.name(),
    {
        match self {
            Source::Stl => "stl",
            Source::Gcode => "gcode",
        }
    }

    /// Everything but `stl` counts as G-code.
    pub fn from_column(raw: &str) -> (r: Source)
        ensures
            r == if raw@ == "stl"@ { Source::Stl } else { Source::Gcode },
    {
        if text::same(raw, "stl") {
            Source::Stl
        } else {
            Source::Gcode
        }
    }
}

#[derive(Debug, PartialEq, Eq)]
pub struct Job {
    pub id: i64,
    pub owner: Option<(i64, String)>,
    pub name: String,
    pub source: Source,
    pub state: JobState,
    pub position: i64,
    pub process_profile: Option<String>,
    pub filament_profile: Option<String>,
    pub supports: Option<bool>,
    pub infill_percent: Option<i64>,
    /// In the units of `slicer::SCALE_PERCENT`, where the model was not sliced at its own size.
    pub scale_percent: Option<u64>,
    pub estimated_seconds: Option<i64>,
    pub layers: Option<i64>,
    pub printer_task_uuid: Option<String>,
    pub progress: i64,
    pub error: String,
    pub created_at: i64,
    pub started_at: Option<i64>,
    pub finished_at: Option<i64>,
    /// The nozzle diameter the G-code was sliced for, when it names one.
    pub nozzle_um: Option<u64>,
    /// The build plate type the G-code was sliced for, when it names one.
    pub plate: Option<String>,
}

pub fn clone_text(value: &Option<String>) -> (r: Option<String>)
    ensures
        r == *value,
{
    match value {
        Some(text) => Some(text.clone()),
        None => None,
    }
}

impl Clone for Job {
    fn clone(&self) -> (r: Job)
        ensures
            r == *self,
    {
        Job {
            id: self.id,
            owner: inventory::clone_owner(&self.owner),
            name: self.name.clone(),
            source: self.source,
            state: self.state,
            position: self.position,
            process_profile: clone_text(&self.process_profile),
            filament_profile: clone_text(&self.filament_profile),
            supports: self.supports,
            infill_percent: self.infill_percent,
            scale_percent: self.scale_percent,
            estimated_seconds: self.estimated_seconds,
            layers: self.layers,
            printer_task_uuid: clone_text(&self.printer_task_uuid),
            progress: self.progress,
            error: self.error.clone(),
            created_at: self.created_at,
            started_at: self.started_at,
            finished_at: self.finished_at,
            nozzle_um: self.nozzle_um,
            plate: clone_text(&self.plate),
        }
    }
}

pub open spec fn is_plain(c: char) -> bool {
    ||| 'a' <= c && c <= 'z'
    ||| 'A' <= c && c <= 'Z'
    ||| text::is_digit(c)
    ||| c == '-'
    ||| c == '_'
    ||| c == ' '
}

/// The last dot from position `i` down, or -1.
pub open spec fn last_dot(s: Seq<char>, i: int) -> int
    decreases i,
{
    if i <= 0 {
        -1
    } else if s[i - 1] == '.' {
        i - 1
    } else {
        last_dot(s, i - 1)
    }
}

/// A file name without its extension, with an underscore for everything but letters, digits,
/// dashes, underscores and spaces, and no white space around it.
pub open spec fn plain_stem(name: Seq<char>) -> Seq<char> {
    let dot = last_dot(name, name.len() as int);
    let stem = if dot >= 0 { name.take(dot) } else { name };
    text::trim(stem.map_values(|c: char| if is_plain(c) { c } else { '_' }))
}

/// The stem of a file name in plain ASCII.
pub fn file_stem(name: &str) -> (r: String)
    ensures
        r@ == plain_stem(name@),
{
    let all = text::chars(name);
    let mut dot: usize = all.len();
    while dot > 0 && all[dot - 1] != '.'
        invariant
            dot <= all@.len(),
            last_dot(all@, all@.len() as int) == last_dot(all@, dot as int),
        decreases dot,
    {
        dot -= 1;
    }
    let end: usize = if dot > 0 {
        dot - 1
    } else {
        all.len()
    };
    let ghost stem = if dot > 0 { all@.take(dot - 1) } else { all@ };
    let mut out: Vec<char> = Vec::new();
    let mut i: usize = 0;
    while i < end
        invariant
            i <= end <= all@.len(),
            stem =~= all@.take(end as int),
            out@.len() == i,
            forall|k: int| 0 <= k < i ==> out@[k] == if is_plain(stem[k]) { stem[k] } else { '_' },
        decreases end - i,
    {
        let c = all[i];
        let plain = ('a' <= c && c <= 'z') || ('A' <= c && c <= 'Z') || text::char_is_digit(c) || c
            == '-' || c == '_' || c == ' ';
        out.push(
            if plain {
                c
            } else {
                '_'
            },
        );
        i += 1;
    }
    assert(out@ =~= stem.map_values(|c: char| if is_plain(c) { c } else { '_' }));
    text::string(text::trimmed(out.as_slice()))
}

impl Job {
    pub open spec fn owned_by(self) -> Option<i64> {
        match self.owner {
            Some((id, _)) => Some(id),
            None => None,
        }
    }

    pub open spec fn file_on_printer(self) -> Seq<char> {
        let stem = plain_stem(self.name@);
        (if stem.len() == 0 { "printhub"@ } else { stem }) + "-"@ + text::decimal_int(self.id as int)
            + ".gcode"@
    }

    pub fn owner_id(&self) -> (r: Option<i64>)
        ensures
            r == self.owned_by(),
    {
        match &self.owner {
            Some((id, _)) => Some(*id),
            None => None,
        }
    }

    /// The uploaded name and the job's id. Plain ASCII: the upload sends it in an HTTP header.
    pub fn printer_filename(&self) -> (r: String)
        ensures
            r@ == self.file_on_printer(),
    {
        let stem = file_stem(self.name.as_str());
        let mut out = if stem.as_str().is_empty() {
            "printhub".to_string()
        } else {
            stem
        };
        out.append("-");
        text::push_decimal_int(&mut out, self.id);
        out.append(".gcode");
        out
    }
}

proof fn lemma_trim_keeps(s: Seq<char>, i: int)
    requires
        0 <= i < text::trim(s).len(),
    ensures
        exists|k: int| 0 <= k < s.len() && s[k] == text::trim(s)[i],
{
    let t = text::trim_start(s);
    text::lemma_trim_start(s);
    text::lemma_trim_end(t);
    assert(text::trim(s)[i] == t[i]);
    assert(t[i] == s[i + s.len() - t.len()]);
}

/// A stem holds letters, digits, dashes, underscores and spaces only.
pub proof fn lemma_plain_stem(name: Seq<char>, i: int)
    requires
        0 <= i < plain_stem(name).len(),
    ensures
        is_plain(plain_stem(name)[i]),
{
    let dot = last_dot(name, name.len() as int);
    let bare = if dot >= 0 { name.take(dot) } else { name };
    let mapped = bare.map_values(|c: char| if is_plain(c) { c } else { '_' });
    lemma_trim_keeps(mapped, i);
}

/// The name a job has on the printer is plain ASCII, whatever was uploaded.
pub proof fn printer_filenames_are_plain_ascii(job: Job, i: int)
    requires
        0 <= i < job.file_on_printer().len(),
    ensures
        (job.file_on_printer()[i] as int) < 128,
{
    reveal_strlit("printhub");
    reveal_strlit("-");
    reveal_strlit(".gcode");
    let stem = plain_stem(job.name@);
    let digits = text::decimal_int(job.id as int);
    text::lemma_decimal(if job.id < 0 { (-job.id) as nat } else { job.id as nat });
    assert forall|k: int| 0 <= k < stem.len() implies (#[trigger] stem[k] as int) < 128 by {
        let dot = last_dot(job.name@, job.name@.len() as int);
        let bare = if dot >= 0 { job.name@.take(dot) } else { job.name@ };
        let mapped = bare.map_values(|c: char| if is_plain(c) { c } else { '_' });
        lemma_trim_keeps(mapped, k);
    }
    let n = if job.id < 0 { text::decimal((-job.id) as nat) } else { text::decimal(job.id as nat) };
    assert forall|k: int| 0 <= k < digits.len() implies (#[trigger] digits[k] as int) < 128 by {
        if job.id < 0 {
            if k > 0 {
                assert(digits[k] == n[k - 1]);
                assert(text::is_digit(n[k - 1]));
            }
        } else {
            assert(text::is_digit(n[k]));
        }
    }
}

impl Job {
    /// A job belongs to who uploaded it, and admins manage every job.
    pub open spec fn is_managed_by(self, user: User) -> bool {
        user.role == Role::Admin || self.owned_by() == Some(user.id)
    }

    pub fn managed_by(&self, user: &User) -> (r: bool)
        ensures
            r == self.is_managed_by(*user),
    {
        match self.owner_id() {
            Some(owner) => user.is_admin() || owner == user.id,
            None => user.is_admin(),
        }
    }

    /// A job that has not ended can be cancelled by who manages it, unless it is being sent to
    /// the printer; a print can also be stopped by whoever may control any print.
    pub open spec fn is_cancellable_by(self, user: User, control_any: bool) -> bool {
        &&& self.state != JobState::Uploading
        &&& !self.state.ended()
        &&& self.is_managed_by(user) || (control_any && self.state == JobState::Printing)
    }

    pub fn cancellable_by(&self, user: &User, control_any: bool) -> (r: bool)
        ensures
            r == self.is_cancellable_by(*user, control_any),
    {
        self.state != JobState::Uploading && !self.state.is_finished() && (self.managed_by(user)
            || (control_any && self.state == JobState::Printing))
    }

    /// A failed job can be queued again where its G-code is there and every tool has its spool.
    pub open spec fn is_retryable_by(self, user: User, tools: Seq<JobTool>, has_gcode: bool) -> bool {
        &&& self.is_managed_by(user)
        &&& self.state == JobState::Failed
        &&& has_gcode
        &&& tools.len() > 0
        &&& forall|i: int| 0 <= i < tools.len() ==> (#[trigger] tools[i]).spool_id is Some
    }

    pub fn retryable_by(&self, user: &User, tools: &[JobTool], has_gcode: bool) -> (r: bool)
        ensures
            r == self.is_retryable_by(*user, tools@, has_gcode),
    {
        if !self.managed_by(user) || self.state != JobState::Failed || !has_gcode || tools.len()
            == 0 {
            return false;
        }
        let mut i: usize = 0;
        while i < tools.len()
            invariant
                i <= tools@.len(),
                forall|k: int| 0 <= k < i ==> (#[trigger] tools@[k]).spool_id is Some,
            decreases tools.len() - i,
        {
            if tools[i].spool_id.is_none() {
                return false;
            }
            i += 1;
        }
        true
    }
}

#[derive(Debug, PartialEq, Eq)]
pub struct JobTool {
    pub tool_index: u32,
    pub material: String,
    pub color_hex: String,
    pub mg: i64,
    pub spool_id: Option<i64>,
    pub canvas_id: Option<i64>,
    pub tray_id: Option<i64>,
}

impl Clone for JobTool {
    fn clone(&self) -> (r: JobTool)
        ensures
            r == *self,
    {
        JobTool {
            tool_index: self.tool_index,
            material: self.material.clone(),
            color_hex: self.color_hex.clone(),
            mg: self.mg,
            spool_id: self.spool_id,
            canvas_id: self.canvas_id,
            tray_id: self.tray_id,
        }
    }
}

#[derive(Debug, Clone, Copy, PartialEq, Eq, Structural)]
pub enum JobError {
    NotFound,
    IllegalTransition { from: JobState, to: JobState },
    StateChanged { expected: JobState },
    Inventory(InventoryError),
}

impl JobError {
    pub open spec fn text(self) -> Seq<char> {
        match self {
            JobError::NotFound => "no such job"@,
            JobError::IllegalTransition { from, to } => "a job cannot go from "@ + from.title()
                + " to "@ + to.title(),
            JobError::StateChanged { expected } => "the job is no longer "@ + expected.title(),
            JobError::Inventory(error) => error.text(),
        }
    }

    pub fn message(&self) -> (r: String)
        ensures
            r@ == self.text(),
    {
        match self {
            JobError::NotFound => "no such job".to_string(),
            JobError::IllegalTransition { from, to } => {
                let mut out = "a job cannot go from ".to_string();
                out.append(from.label());
                out.append(" to ");
                out.append(to.label());
                out
            },
            JobError::StateChanged { expected } => {
                let mut out = "the job is no longer ".to_string();
                out.append(expected.label());
                out
            },
            JobError::Inventory(error) => error.message().to_string(),
        }
    }
}

/// One path below another, with one slash between them.
pub open spec fn below(base: Seq<char>, part: Seq<char>) -> Seq<char> {
    if base.len() == 0 {
        part
    } else if base.last() == '/' {
        base + part
    } else {
        base + "/"@ + part
    }
}

pub fn join_path(base: &str, part: &str) -> (r: String)
    ensures
        r@ == below(base@, part@),
{
    let mut out = base.to_string();
    let n: usize = base.unicode_len();
    if n > 0 && base.get_char(n - 1) != '/' {
        out.append("/");
    }
    out.append(part);
    proof {
        reveal_strlit("/");
        assert(out@ =~= below(base@, part@));
    }
    out
}

pub open spec fn job_dir(data_dir: Seq<char>, id: int) -> Seq<char> {
    below(below(data_dir, "jobs"@), text::decimal_int(id))
}

/// Where a job's files live: `<DATA_DIR>/jobs/<id>/`.
pub fn dir(data_dir: &str, id: i64) -> (r: String)
    ensures
        r@ == job_dir(data_dir@, id as int),
{
    let jobs = join_path(data_dir, "jobs");
    let number = text::decimal_int_string(id);
    join_path(jobs.as_str(), number.as_str())
}

pub fn model_path(data_dir: &str, id: i64) -> (r: String)
    ensures
        r@ == below(job_dir(data_dir@, id as int), "model.stl"@),
{
    join_path(dir(data_dir, id).as_str(), "model.stl")
}

pub fn gcode_path(data_dir: &str, id: i64) -> (r: String)
    ensures
        r@ == below(job_dir(data_dir@, id as int), "job.gcode"@),
{
    join_path(dir(data_dir, id).as_str(), "job.gcode")
}

pub fn preview_path(data_dir: &str, id: i64) -> (r: String)
    ensures
        r@ == below(job_dir(data_dir@, id as int), "preview.png"@),
{
    join_path(dir(data_dir, id).as_str(), "preview.png")
}

// ---------------------------------------------------------------------------------------------
// The tables
// ---------------------------------------------------------------------------------------------

pub struct NewJob {
    pub owner: (i64, String),
    pub name: String,
    pub source: Source,
    pub process_profile: Option<String>,
    pub filament_profile: Option<String>,
    pub supports: Option<bool>,
    pub infill_percent: Option<u8>,
    /// In the units of `slicer::SCALE_PERCENT`.
    pub scale_percent: Option<u64>,
}

/// What one tool of a job needs, and where it came from.
#[derive(Debug)]
pub struct ToolRow {
    pub job_id: i64,
    pub tool: JobTool,
}

/// What people have said about the printer.
#[derive(Debug, Clone, Copy, PartialEq, Eq, Structural)]
pub struct PrinterRecord {
    pub bed_clear: bool,
    pub bed_changed_by: Option<i64>,
    pub bed_changed_at: Option<i64>,
    pub nozzle: Option<Nozzle>,
    pub nozzle_changed_by: Option<i64>,
    pub nozzle_changed_at: Option<i64>,
}

#[derive(Debug)]
pub struct Jobs {
    pub jobs: Vec<Job>,
    pub tools: Vec<ToolRow>,
    pub printer: PrinterRecord,
}

/// The first job from position `i` on with the given id, or the number of jobs.
pub open spec fn job_at(jobs: Seq<Job>, id: i64, i: int) -> int
    decreases jobs.len() - i,
{
    if i >= jobs.len() {
        jobs.len() as int
    } else if jobs[i].id == id {
        i
    } else {
        job_at(jobs, id, i + 1)
    }
}

/// One more than the largest id, and at least 1.
pub open spec fn next_job_id(jobs: Seq<Job>) -> int
    decreases jobs.len(),
{
    if jobs.len() == 0 {
        1
    } else {
        let before = next_job_id(jobs.drop_last());
        if jobs.last().id >= before { jobs.last().id + 1 } else { before }
    }
}

/// The largest position in the queue.
pub open spec fn last_position(jobs: Seq<Job>) -> int
    decreases jobs.len(),
{
    if jobs.len() == 0 {
        0
    } else if jobs.len() == 1 {
        jobs[0].position as int
    } else {
        let before = last_position(jobs.drop_last());
        if jobs.last().position > before { jobs.last().position as int } else { before }
    }
}

impl Jobs {
    /// No two jobs share an id or a place in the queue.
    pub open spec fn well_formed(self) -> bool {
        forall|i: int, j: int|
            0 <= i < j < self.jobs@.len() ==> (#[trigger] self.jobs@[i]).id != (
            #[trigger] self.jobs@[j]).id && self.jobs@[i].position != self.jobs@[j].position
    }

    /// The bed starts out not clear.
    pub fn new() -> (r: Jobs)
        ensures
            r.well_formed(),
            r.jobs@ == Seq::<Job>::empty(),
            r.tools@ == Seq::<ToolRow>::empty(),
            r.printer == (PrinterRecord {
                bed_clear: false,
                bed_changed_by: None,
                bed_changed_at: None,
                nozzle: None,
                nozzle_changed_by: None,
                nozzle_changed_at: None,
            }),
    {
        Jobs {
            jobs: Vec::new(),
            tools: Vec::new(),
            printer: PrinterRecord {
                bed_clear: false,
                bed_changed_by: None,
                bed_changed_at: None,
                nozzle: None,
                nozzle_changed_by: None,
                nozzle_changed_at: None,
            },
        }
    }
}

pub proof fn lemma_job_at(jobs: Seq<Job>, id: i64, i: int)
    requires
        0 <= i <= jobs.len(),
    ensures
        i <= job_at(jobs, id, i) <= jobs.len(),
        job_at(jobs, id, i) < jobs.len() ==> jobs[job_at(jobs, id, i)].id == id,
        forall|k: int| i <= k < job_at(jobs, id, i) ==> jobs[k].id != id,
    decreases jobs.len() - i,
{
    if i < jobs.len() && jobs[i].id != id {
        lemma_job_at(jobs, id, i + 1);
    }
}

proof fn lemma_next_job_id(jobs: Seq<Job>)
    ensures
        next_job_id(jobs) >= 1,
        forall|i: int| 0 <= i < jobs.len() ==> jobs[i].id < next_job_id(jobs),
    decreases jobs.len(),
{
    if jobs.len() > 0 {
        lemma_next_job_id(jobs.drop_last());
        assert forall|i: int| 0 <= i < jobs.len() implies jobs[i].id < next_job_id(jobs) by {
            if i < jobs.len() - 1 {
                assert(jobs.drop_last()[i] == jobs[i]);
            }
        }
    }
}

proof fn lemma_last_position(jobs: Seq<Job>)
    ensures
        forall|i: int| 0 <= i < jobs.len() ==> jobs[i].position <= last_position(jobs),
    decreases jobs.len(),
{
    if jobs.len() > 1 {
        lemma_last_position(jobs.drop_last());
        assert forall|i: int| 0 <= i < jobs.len() implies jobs[i].position <= last_position(
            jobs,
        ) by {
            if i < jobs.len() - 1 {
                assert(jobs.drop_last()[i] == jobs[i]);
            }
        }
    }
}

fn find_job(jobs: &Vec<Job>, id: i64) -> (r: usize)
    ensures
        r == job_at(jobs@, id, 0),
        r <= jobs@.len(),
        r < jobs@.len() ==> jobs@[r as int].id == id,
        forall|k: int| 0 <= k < r ==> jobs@[k].id != id,
{
    let mut i: usize = 0;
    while i < jobs.len() && jobs[i].id != id
        invariant
            i <= jobs@.len(),
            job_at(jobs@, id, 0) == job_at(jobs@, id, i as int),
            forall|k: int| 0 <= k < i ==> jobs@[k].id != id,
        decreases jobs.len() - i,
    {
        i += 1;
    }
    i
}

fn find_next_id(jobs: &Vec<Job>) -> (r: i64)
    requires
        next_job_id(jobs@) <= i64::MAX,
    ensures
        r == next_job_id(jobs@),
{
    proof {
        lemma_next_job_id(jobs@);
    }
    let mut id: i64 = 1;
    let mut i: usize = 0;
    while i < jobs.len()
        invariant
            i <= jobs@.len(),
            next_job_id(jobs@) <= i64::MAX,
            id == next_job_id(jobs@.take(i as int)),
            forall|k: int| 0 <= k < jobs@.len() ==> jobs@[k].id < next_job_id(jobs@),
        decreases jobs.len() - i,
    {
        assert(jobs@.take(i + 1).drop_last() =~= jobs@.take(i as int));
        if jobs[i].id >= id {
            id = jobs[i].id + 1;
        }
        i += 1;
    }
    assert(jobs@.take(i as int) =~= jobs@);
    id
}

fn find_last_position(jobs: &Vec<Job>) -> (r: i64)
    ensures
        r == last_position(jobs@),
{
    if jobs.len() == 0 {
        return 0;
    }
    let mut last: i64 = jobs[0].position;
    let mut i: usize = 1;
    while i < jobs.len()
        invariant
            1 <= i <= jobs@.len(),
            last == last_position(jobs@.take(i as int)),
        decreases jobs.len() - i,
    {
        assert(jobs@.take(i + 1).drop_last() =~= jobs@.take(i as int));
        if jobs[i].position > last {
            last = jobs[i].position;
        }
        i += 1;
    }
    assert(jobs@.take(i as int) =~= jobs@);
    last
}

/// A new job starts slicing (STL) or waiting for confirmation (G-code).
pub open spec fn new_job(id: i64, position: i64, job: NewJob, error: String, now: i64) -> Job {
    Job {
        id,
        owner: Some(job.owner),
        name: job.name,
        source: job.source,
        state: match job.source {
            Source::Stl => JobState::Slicing,
            Source::Gcode => JobState::AwaitingConfirm,
        },
        position,
        process_profile: job.process_profile,
        filament_profile: job.filament_profile,
        supports: job.supports,
        scale_percent: job.scale_percent,
        infill_percent: match job.infill_percent {
            Some(percent) => Some(percent as i64),
            None => None,
        },
        estimated_seconds: None,
        layers: None,
        printer_task_uuid: None,
        progress: 0,
        error,
        created_at: now,
        started_at: None,
        finished_at: None,
        nozzle_um: None,
        plate: None,
    }
}

/// A new job starts slicing (STL) or waiting for confirmation (G-code), behind all others.
pub fn create(db: &mut Jobs, job: NewJob, now: i64) -> (r: i64)
    requires
        next_job_id(old(db).jobs@) <= i64::MAX,
        last_position(old(db).jobs@) < i64::MAX,
    ensures
        old(db).well_formed() ==> final(db).well_formed(),
        r == next_job_id(old(db).jobs@),
        final(db).jobs@.len() == old(db).jobs@.len() + 1,
        final(db).jobs@.drop_last() == old(db).jobs@,
        ({
            let new = final(db).jobs@.last();
            &&& new == new_job(r, (last_position(old(db).jobs@) + 1) as i64, job, new.error, now)
            &&& new.error@ == ""@
        }),
        final(db).tools@ == old(db).tools@,
        final(db).printer == old(db).printer,
{
    proof {
        lemma_next_job_id(db.jobs@);
        lemma_last_position(db.jobs@);
    }
    let id = find_next_id(&db.jobs);
    let position: i64 = find_last_position(&db.jobs) + 1;
    let state = match job.source {
        Source::Stl => JobState::Slicing,
        Source::Gcode => JobState::AwaitingConfirm,
    };
    let infill_percent: Option<i64> = match job.infill_percent {
        Some(percent) => Some(percent as i64),
        None => None,
    };
    db.jobs.push(
        Job {
            id,
            owner: Some(job.owner),
            name: job.name,
            source: job.source,
            state,
            position,
            process_profile: job.process_profile,
            filament_profile: job.filament_profile,
            supports: job.supports,
            infill_percent,
            scale_percent: job.scale_percent,
            estimated_seconds: None,
            layers: None,
            printer_task_uuid: None,
            progress: 0,
            error: "".to_string(),
            created_at: now,
            started_at: None,
            finished_at: None,
            nozzle_um: None,
            plate: None,
        },
    );
    assert(db.jobs@.drop_last() =~= old(db).jobs@);
    id
}

/// A job after a step. Going to `Queued` from anywhere but `Uploading` moves the job to the back
/// of the queue; a failed upload keeps its place.
pub open spec fn stepped(
    job: Job,
    to: JobState,
    error: Option<String>,
    back: int,
    now: i64,
) -> Job {
    Job {
        state: to,
        error: match error {
            Some(error) => error,
            None => job.error,
        },
        position: if to == JobState::Queued && job.state != JobState::Uploading {
            back as i64
        } else {
            job.position
        },
        started_at: if to == JobState::Printing { Some(now) } else { job.started_at },
        finished_at: if to.ended() { Some(now) } else { job.finished_at },
        ..job
    }
}

/// A job after a step, with what its error then says.
pub open spec fn is_step(
    before: Job,
    after: Job,
    to: JobState,
    error: Option<Seq<char>>,
    back: int,
    now: i64,
) -> bool {
    &&& match error {
        Some(said) => after.error@ == said,
        None => after.error == before.error,
    }
    &&& after == (Job { error: after.error, ..stepped(before, to, None, back, now) })
}

/// The jobs after one of them took a step.
pub open spec fn one_stepped(
    before: Seq<Job>,
    after: Seq<Job>,
    i: int,
    to: JobState,
    error: Option<Seq<char>>,
    now: i64,
) -> bool {
    &&& 0 <= i < before.len() == after.len()
    &&& after == before.update(i, after[i])
    &&& is_step(before[i], after[i], to, error, last_position(before) + 1, now)
}

/// What keeps its place in the queue does not move the queue's end.
pub proof fn lemma_last_position_update(jobs: Seq<Job>, i: int, job: Job)
    requires
        0 <= i < jobs.len(),
        job.position == jobs[i].position,
    ensures
        last_position(jobs.update(i, job)) == last_position(jobs),
    decreases jobs.len(),
{
    let after = jobs.update(i, job);
    if jobs.len() > 1 {
        if i < jobs.len() - 1 {
            assert(after.drop_last() =~= jobs.drop_last().update(i, job));
            lemma_last_position_update(jobs.drop_last(), i, job);
        } else {
            assert(after.drop_last() =~= jobs.drop_last());
        }
    }
}

/// The only way a job changes state. It applies only if the job is still in `from`, so two
/// tasks racing on one job cannot both win.
///
/// Going to `Queued` from anywhere but `Uploading` moves the job to the back of the queue; a
/// failed upload keeps its place. `error` replaces the job's error text when given.
pub fn transition(
    db: &mut Jobs,
    id: i64,
    from: JobState,
    to: JobState,
    error: Option<String>,
    now: i64,
) -> (r: Result<(), JobError>)
    requires
        last_position(old(db).jobs@) < i64::MAX,
    ensures
        old(db).well_formed() ==> final(db).well_formed(),
        final(db).tools@ == old(db).tools@,
        final(db).printer == old(db).printer,
        ({
            let before = old(db).jobs@;
            let i = job_at(before, id, 0);
            if !from.leads_to(to) {
                r == Err::<(), JobError>(JobError::IllegalTransition { from, to }) && final(db).jobs@
                    == before
            } else if i >= before.len() || before[i].state != from {
                r == Err::<(), JobError>(JobError::StateChanged { expected: from }) && final(
                    db).jobs@ == before
            } else {
                r == Ok::<(), JobError>(()) && final(db).jobs@ == before.update(
                    i,
                    stepped(before[i], to, error, last_position(before) + 1, now),
                )
            }
        }),
{
    if !from.can_become(to) {
        return Err(JobError::IllegalTransition { from, to });
    }
    let i = find_job(&db.jobs, id);
    if i >= db.jobs.len() || db.jobs[i].state != from {
        return Err(JobError::StateChanged { expected: from });
    }
    proof {
        lemma_last_position(db.jobs@);
    }
    if to == JobState::Queued && from != JobState::Uploading {
        let back: i64 = find_last_position(&db.jobs) + 1;
        db.jobs[i].position = back;
    }
    db.jobs[i].state = to;
    if let Some(error) = error {
        db.jobs[i].error = error;
    }
    if to == JobState::Printing {
        db.jobs[i].started_at = Some(now);
    }
    if to.is_finished() {
        db.jobs[i].finished_at = Some(now);
    }
    assert(db.jobs@ =~= old(db).jobs@.update(
        i as int,
        stepped(
            old(db).jobs@[i as int],
            to,
            error,
            last_position(old(db).jobs@) + 1,
            now,
        ),
    ));
    Ok(())
}

/// Once a step has been taken, taking the same step again finds the job in another state: of two
/// tasks racing on one job only one wins.
pub proof fn a_step_is_taken_once(
    jobs: Seq<Job>,
    id: i64,
    from: JobState,
    to: JobState,
    error: Option<String>,
    back: int,
    now: i64,
)
    requires
        from.leads_to(to),
        job_at(jobs, id, 0) < jobs.len(),
        jobs[job_at(jobs, id, 0)].state == from,
    ensures
        ({
            let i = job_at(jobs, id, 0);
            let after = jobs.update(i, stepped(jobs[i], to, error, back, now));
            job_at(after, id, 0) == i && after[i].state != from
        }),
{
    let i = job_at(jobs, id, 0);
    let after = jobs.update(i, stepped(jobs[i], to, error, back, now));
    lemma_job_at(jobs, id, 0);
    lemma_job_is(after, id, 0, i);
}

pub proof fn lemma_job_is(jobs: Seq<Job>, id: i64, i: int, at: int)
    requires
        0 <= i <= at < jobs.len(),
        jobs[at].id == id,
        forall|k: int| i <= k < at ==> (#[trigger] jobs[k]).id != id,
    ensures
        job_at(jobs, id, i) == at,
    decreases at - i,
{
    if i < at {
        assert(jobs[i].id != id);
        lemma_job_is(jobs, id, i + 1, at);
    }
}

pub fn get(db: &Jobs, id: i64) -> (r: Option<Job>)
    ensures
        ({
            let i = job_at(db.jobs@, id, 0);
            if i < db.jobs@.len() {
                r == Some(db.jobs@[i])
            } else {
                r is None
            }
        }),
{
    let i = find_job(&db.jobs, id);
    if i < db.jobs.len() {
        Some(db.jobs[i].clone())
    } else {
        None
    }
}

pub open spec fn has_ended() -> spec_fn(Job) -> bool {
    |job: Job| job.state.ended()
}

/// When a job finished; jobs that say nothing of it come last.
pub open spec fn finish_rank(job: Job) -> int {
    match job.finished_at {
        Some(at) => at as int,
        None => -1_000_000_000_000_000_000_000,
    }
}

/// Finished last first.
pub open spec fn recent_first() -> spec_fn(Job, Job) -> bool {
    |a: Job, b: Job|
        finish_rank(b) < finish_rank(a) || finish_rank(b) == finish_rank(a) && b.id <= a.id
}

/// The `finished` most recently finished jobs; all of them where `finished` is negative.
pub open spec fn recently_finished(jobs: Seq<Job>, finished: int) -> Seq<Job> {
    let all = order::sorted(jobs.filter(has_ended()), recent_first());
    if 0 <= finished < all.len() {
        all.take(finished)
    } else {
        all
    }
}

pub open spec fn ids(jobs: Seq<Job>) -> Seq<i64> {
    jobs.map_values(|job: Job| job.id)
}

pub open spec fn is_listed(recent: Seq<i64>) -> spec_fn(Job) -> bool {
    |job: Job| !job.state.ended() || recent.contains(job.id)
}

/// On the printer, queued, being prepared, finished.
pub open spec fn list_group(state: JobState) -> int {
    match state {
        JobState::Printing => 0,
        JobState::Uploading => 0,
        JobState::Queued => 1,
        JobState::AwaitingConfirm => 2,
        JobState::Slicing => 2,
        _ => 3,
    }
}

/// Unfinished jobs by their place in the queue, finished ones by when they finished.
pub open spec fn list_rank(job: Job) -> int {
    if job.state.ended() {
        match job.finished_at {
            Some(at) => -at,
            None => -1_000_000_000_000_000_000_000,
        }
    } else {
        job.position as int
    }
}

pub open spec fn list_order() -> spec_fn(Job, Job) -> bool {
    |a: Job, b: Job|
        {
            if list_group(a.state) != list_group(b.state) {
                list_group(a.state) < list_group(b.state)
            } else if list_rank(a) != list_rank(b) {
                list_rank(a) < list_rank(b)
            } else {
                a.id <= b.id
            }
        }
}

fn group_of(state: JobState) -> (r: u8)
    ensures
        r == list_group(state),
{
    match state {
        JobState::Printing => 0,
        JobState::Uploading => 0,
        JobState::Queued => 1,
        JobState::AwaitingConfirm => 2,
        JobState::Slicing => 2,
        _ => 3,
    }
}

fn rank_of(job: &Job) -> (r: i128)
    ensures
        r == list_rank(*job),
{
    if job.state.is_finished() {
        match job.finished_at {
            Some(at) => -(at as i128),
            None => -1_000_000_000_000_000_000_000,
        }
    } else {
        job.position as i128
    }
}

fn finish_rank_of(job: &Job) -> (r: i128)
    ensures
        r == finish_rank(*job),
{
    match job.finished_at {
        Some(at) => at as i128,
        None => -1_000_000_000_000_000_000_000,
    }
}

fn contains_id(ids: &Vec<i64>, id: i64) -> (r: bool)
    ensures
        r == ids@.contains(id),
{
    let mut i: usize = 0;
    while i < ids.len()
        invariant
            i <= ids@.len(),
            forall|k: int| 0 <= k < i ==> ids@[k] != id,
        decreases ids.len() - i,
    {
        if ids[i] == id {
            return true;
        }
        i += 1;
    }
    false
}

/// Every unfinished job in queue order, then the `finished` most recently finished ones.
pub fn list(db: &Jobs, finished: i64) -> (r: Vec<Job>)
    ensures
        r@ == order::sorted(
            db.jobs@.filter(is_listed(ids(recently_finished(db.jobs@, finished as int)))),
            list_order(),
        ),
{
    let ghost ended = has_ended();
    let mut done: Vec<Job> = Vec::new();
    proof {
        lists::lemma_filter_ends(db.jobs@, ended);
    }
    let mut i: usize = 0;
    while i < db.jobs.len()
        invariant
            i <= db.jobs@.len(),
            ended == has_ended(),
            done@ == db.jobs@.take(i as int).filter(ended),
        decreases db.jobs.len() - i,
    {
        proof {
            lists::lemma_filter_step(db.jobs@, ended, i as int);
        }
        if db.jobs[i].state.is_finished() {
            done.push(db.jobs[i].clone());
        }
        i += 1;
    }
    let before = |a: &Job, b: &Job| -> (r: bool)
        ensures
            r == recent_first()(*a, *b),
        {
            let x = finish_rank_of(a);
            let y = finish_rank_of(b);
            y < x || (y == x && b.id <= a.id)
        };
    let done = order::sort_by(done, before, Ghost(recent_first()));
    let count: usize = if finished >= 0 && (finished as u64) < done.len() as u64 {
        finished as usize
    } else {
        done.len()
    };
    let ghost chosen = ids(recently_finished(db.jobs@, finished as int));
    let mut recent: Vec<i64> = Vec::new();
    let mut i: usize = 0;
    while i < count
        invariant
            i <= count <= done@.len(),
            recent@.len() == i,
            forall|k: int| 0 <= k < i ==> recent@[k] == done@[k].id,
        decreases count - i,
    {
        recent.push(done[i].id);
        i += 1;
    }
    assert(recent@ =~= chosen);
    let ghost listed = is_listed(chosen);
    let mut out: Vec<Job> = Vec::new();
    proof {
        lists::lemma_filter_ends(db.jobs@, listed);
    }
    let mut i: usize = 0;
    while i < db.jobs.len()
        invariant
            i <= db.jobs@.len(),
            listed == is_listed(chosen),
            recent@ == chosen,
            out@ == db.jobs@.take(i as int).filter(listed),
        decreases db.jobs.len() - i,
    {
        proof {
            lists::lemma_filter_step(db.jobs@, listed, i as int);
        }
        if !db.jobs[i].state.is_finished() || contains_id(&recent, db.jobs[i].id) {
            out.push(db.jobs[i].clone());
        }
        i += 1;
    }
    let before = |a: &Job, b: &Job| -> (r: bool)
        ensures
            r == list_order()(*a, *b),
        {
            let x = group_of(a.state);
            let y = group_of(b.state);
            if x != y {
                return x < y;
            }
            let x = rank_of(a);
            let y = rank_of(b);
            if x != y {
                return x < y;
            }
            a.id <= b.id
        };
    order::sort_by(out, before, Ghost(list_order()))
}

/// The printing job with the lowest id among the first `n`, or -1.
pub open spec fn first_printing(jobs: Seq<Job>, n: int) -> int
    decreases n,
{
    if n <= 0 {
        -1
    } else {
        let before = first_printing(jobs, n - 1);
        if jobs[n - 1].state == JobState::Printing && (before < 0 || jobs[n - 1].id
            < jobs[before].id) {
            n - 1
        } else {
            before
        }
    }
}

/// Layers of the job printing now, for the printer card: the printer's own total is 0.
pub fn printing_layers(db: &Jobs) -> (r: Option<i64>)
    ensures
        ({
            let i = first_printing(db.jobs@, db.jobs@.len() as int);
            r == if i >= 0 {
                db.jobs@[i].layers
            } else {
                None
            }
        }),
{
    let mut best: Option<usize> = None;
    let mut i: usize = 0;
    while i < db.jobs.len()
        invariant
            i <= db.jobs@.len(),
            best matches Some(k) ==> k < i && first_printing(db.jobs@, i as int) == k,
            best is None ==> first_printing(db.jobs@, i as int) == -1,
        decreases db.jobs.len() - i,
    {
        if db.jobs[i].state == JobState::Printing {
            let lower = match best {
                Some(k) => db.jobs[i].id < db.jobs[k].id,
                None => true,
            };
            if lower {
                best = Some(i);
            }
        }
        i += 1;
    }
    match best {
        Some(k) => db.jobs[k].layers,
        None => None,
    }
}

pub open spec fn is_in(state: JobState) -> spec_fn(Job) -> bool {
    |job: Job| job.state == state
}

pub open spec fn queue_order() -> spec_fn(Job, Job) -> bool {
    |a: Job, b: Job| a.position < b.position || a.position == b.position && a.id <= b.id
}

/// The jobs in a state, in queue order.
pub fn in_state(db: &Jobs, state: JobState) -> (r: Vec<Job>)
    ensures
        r@ == order::sorted(db.jobs@.filter(is_in(state)), queue_order()),
{
    let ghost p = is_in(state);
    let mut out: Vec<Job> = Vec::new();
    proof {
        lists::lemma_filter_ends(db.jobs@, p);
    }
    let mut i: usize = 0;
    while i < db.jobs.len()
        invariant
            i <= db.jobs@.len(),
            p == is_in(state),
            out@ == db.jobs@.take(i as int).filter(p),
        decreases db.jobs.len() - i,
    {
        proof {
            lists::lemma_filter_step(db.jobs@, p, i as int);
        }
        if db.jobs[i].state == state {
            out.push(db.jobs[i].clone());
        }
        i += 1;
    }
    let before = |a: &Job, b: &Job| -> (r: bool)
        ensures
            r == queue_order()(*a, *b),
        { a.position < b.position || (a.position == b.position && a.id <= b.id) };
    order::sort_by(out, before, Ghost(queue_order()))
}

pub open spec fn of_job(job_id: i64) -> spec_fn(ToolRow) -> bool {
    |row: ToolRow| row.job_id == job_id
}

pub open spec fn tool_order() -> spec_fn(JobTool, JobTool) -> bool {
    |a: JobTool, b: JobTool| a.tool_index <= b.tool_index
}

/// A job's tools, by index.
pub open spec fn tools_of(tools: Seq<ToolRow>, job_id: i64) -> Seq<JobTool> {
    order::sorted(tools.filter(of_job(job_id)).map_values(|row: ToolRow| row.tool), tool_order())
}

pub fn tools(db: &Jobs, job_id: i64) -> (r: Vec<JobTool>)
    ensures
        r@ == tools_of(db.tools@, job_id),
{
    let ghost p = of_job(job_id);
    let ghost tool = |row: ToolRow| row.tool;
    let mut out: Vec<JobTool> = Vec::new();
    proof {
        lists::lemma_filter_ends(db.tools@, p);
    }
    let mut i: usize = 0;
    while i < db.tools.len()
        invariant
            i <= db.tools@.len(),
            p == of_job(job_id),
            tool == (|row: ToolRow| row.tool),
            out@ =~= db.tools@.take(i as int).filter(p).map_values(tool),
        decreases db.tools.len() - i,
    {
        proof {
            lists::lemma_filter_step(db.tools@, p, i as int);
        }
        if db.tools[i].job_id == job_id {
            out.push(db.tools[i].tool.clone());
        }
        i += 1;
    }
    let before = |a: &JobTool, b: &JobTool| -> (r: bool)
        ensures
            r == tool_order()(*a, *b),
        { a.tool_index <= b.tool_index };
    order::sort_by(out, before, Ghost(tool_order()))
}

// ---------------------------------------------------------------------------------------------
// What a job needs
// ---------------------------------------------------------------------------------------------

pub open spec fn of_other_job(job_id: i64) -> spec_fn(ToolRow) -> bool {
    |row: ToolRow| row.job_id != job_id
}

/// A tool as its G-code describes it, assigned the given spool.
pub open spec fn needed_tool(job_id: i64, tool: ToolUse, spool_id: Option<i64>) -> ToolRow {
    ToolRow {
        job_id,
        tool: JobTool {
            tool_index: tool.index,
            material: tool.material,
            color_hex: tool.color,
            mg: tool.mg,
            spool_id,
            canvas_id: None,
            tray_id: None,
        },
    }
}

/// Records what the G-code needs: the estimate, its nozzle and plate, and one row per tool that
/// uses filament. With `spool_id`, every tool is assigned that spool, as when the job was sliced
/// for it.
pub fn store_gcode_info(db: &mut Jobs, job_id: i64, info: &GcodeInfo, spool_id: Option<i64>)
    ensures
        old(db).well_formed() ==> final(db).well_formed(),
        final(db).printer == old(db).printer,
        ({
            let before = old(db).jobs@;
            let i = job_at(before, job_id, 0);
            final(db).jobs@ == if i < before.len() {
                before.update(
                    i,
                    Job {
                        estimated_seconds: info.estimated_seconds,
                        layers: info.layers,
                        nozzle_um: gcode::diameter_of(info.nozzle@),
                        plate: if info.plate@.len() == 0 { None } else { Some(info.plate) },
                        ..before[i]
                    },
                )
            } else {
                before
            }
        }),
        final(db).tools@ == old(db).tools@.filter(of_other_job(job_id)) + info.tools@.filter(
            gcode::uses_filament(),
        ).map_values(|tool: ToolUse| needed_tool(job_id, tool, spool_id)),
{
    let i = find_job(&db.jobs, job_id);
    if i < db.jobs.len() {
        db.jobs[i].estimated_seconds = info.estimated_seconds;
        db.jobs[i].layers = info.layers;
        db.jobs[i].nozzle_um = info.nozzle_um();
        db.jobs[i].plate = if info.plate.as_str().is_empty() {
            None
        } else {
            Some(info.plate.clone())
        };
    }
    let ghost all = db.tools@;
    let ghost p = of_other_job(job_id);
    let mut rows: Vec<ToolRow> = Vec::new();
    std::mem::swap(&mut rows, &mut db.tools);
    let mut out: Vec<ToolRow> = Vec::new();
    proof {
        lists::lemma_filter_ends(all, p);
    }
    for row in it: rows
        invariant
            it.seq() == all,
            out@ == all.take(it.index() as int).filter(p),
            p == of_other_job(job_id),
    {
        proof {
            lists::lemma_filter_step(all, p, it.index() as int);
        }
        if row.job_id != job_id {
            out.push(row);
        }
    }
    let ghost kept = out@;
    let ghost needed = |tool: ToolUse| needed_tool(job_id, tool, spool_id);
    let used = info.used_tools();
    let ghost used_tools = used@;
    proof {
        assert(out@ =~= kept + used_tools.take(0).map_values(needed));
    }
    for tool in it: used
        invariant
            it.seq() == used_tools,
            needed == (|tool: ToolUse| needed_tool(job_id, tool, spool_id)),
            out@ == kept + used_tools.take(it.index() as int).map_values(needed),
    {
        let ghost n = it.index() as int;
        out.push(
            ToolRow {
                job_id,
                tool: JobTool {
                    tool_index: tool.index,
                    material: tool.material,
                    color_hex: tool.color,
                    mg: tool.mg,
                    spool_id,
                    canvas_id: None,
                    tray_id: None,
                },
            },
        );
        assert(out@ =~= kept + used_tools.take(n + 1).map_values(needed));
    }
    assert(used_tools.take(used_tools.len() as int) =~= used_tools);
    db.tools = out;
}

/// The spool that the last of the choices for a tool names.
pub open spec fn chosen_spool(choices: Seq<(u32, i64)>, tool: u32, spool_id: Option<i64>) -> Option<
    i64,
>
    decreases choices.len(),
{
    if choices.len() == 0 {
        spool_id
    } else if choices.last().0 == tool {
        Some(choices.last().1)
    } else {
        chosen_spool(choices.drop_last(), tool, spool_id)
    }
}

pub open spec fn with_choice(row: ToolRow, job_id: i64, choices: Seq<(u32, i64)>) -> ToolRow {
    if row.job_id == job_id {
        ToolRow {
            tool: JobTool {
                spool_id: chosen_spool(choices, row.tool.tool_index, row.tool.spool_id),
                ..row.tool
            },
            ..row
        }
    } else {
        row
    }
}

/// Assigns spools to tools, as `(tool_index, spool_id)`.
pub fn choose_spools(db: &mut Jobs, job_id: i64, choices: &[(u32, i64)])
    ensures
        final(db).jobs@ == old(db).jobs@,
        final(db).printer == old(db).printer,
        final(db).tools@ == old(db).tools@.map_values(
            |row: ToolRow| with_choice(row, job_id, choices@),
        ),
{
    let ghost all = db.tools@;
    let mut i: usize = 0;
    while i < db.tools.len()
        invariant
            i <= db.tools@.len(),
            db.tools@.len() == all.len(),
            db.jobs@ == old(db).jobs@,
            db.printer == old(db).printer,
            forall|k: int|
                0 <= k < i ==> #[trigger] db.tools@[k] == with_choice(all[k], job_id, choices@),
            forall|k: int| i <= k < all.len() ==> #[trigger] db.tools@[k] == all[k],
        decreases db.tools.len() - i,
    {
        if db.tools[i].job_id == job_id {
            let tool: u32 = db.tools[i].tool.tool_index;
            let mut spool_id: Option<i64> = db.tools[i].tool.spool_id;
            let mut k: usize = 0;
            while k < choices.len()
                invariant
                    k <= choices@.len(),
                    spool_id == chosen_spool(
                        choices@.take(k as int),
                        tool,
                        all[i as int].tool.spool_id,
                    ),
                decreases choices.len() - k,
            {
                assert(choices@.take(k + 1).drop_last() =~= choices@.take(k as int));
                if choices[k].0 == tool {
                    spool_id = Some(choices[k].1);
                }
                k += 1;
            }
            assert(choices@.take(k as int) =~= choices@);
            db.tools[i].tool.spool_id = spool_id;
        }
        i += 1;
    }
    assert(db.tools@ =~= all.map_values(|row: ToolRow| with_choice(row, job_id, choices@)));
}

/// The tray that the last entry for a tool names, as `(canvas_id, tray_id)`.
pub open spec fn mapped_tray(slots: Seq<SlotMapEntry>, tool: u32) -> Option<(i64, i64)>
    decreases slots.len(),
{
    if slots.len() == 0 {
        None
    } else if slots.last().t == tool {
        Some((slots.last().canvas_id as i64, slots.last().tray_id as i64))
    } else {
        mapped_tray(slots.drop_last(), tool)
    }
}

pub open spec fn with_tray(row: ToolRow, job_id: i64, slots: Seq<SlotMapEntry>) -> ToolRow {
    match mapped_tray(slots, row.tool.tool_index) {
        Some((canvas_id, tray_id)) if row.job_id == job_id => ToolRow {
            tool: JobTool { canvas_id: Some(canvas_id), tray_id: Some(tray_id), ..row.tool },
            ..row
        },
        _ => row,
    }
}

/// Records which tray each tool printed from, and the printer's task id once known.
pub fn record_start(
    db: &mut Jobs,
    job_id: i64,
    slot_map: &[SlotMapEntry],
    task_uuid: Option<String>,
)
    ensures
        old(db).well_formed() ==> final(db).well_formed(),
        final(db).printer == old(db).printer,
        ({
            let before = old(db).jobs@;
            let i = job_at(before, job_id, 0);
            final(db).jobs@ == if i < before.len() {
                before.update(
                    i,
                    Job {
                        progress: 0,
                        printer_task_uuid: if task_uuid is Some {
                            task_uuid
                        } else {
                            before[i].printer_task_uuid
                        },
                        ..before[i]
                    },
                )
            } else {
                before
            }
        }),
        final(db).tools@ == old(db).tools@.map_values(
            |row: ToolRow| with_tray(row, job_id, slot_map@),
        ),
{
    let ghost all = db.tools@;
    let mut i: usize = 0;
    while i < db.tools.len()
        invariant
            i <= db.tools@.len(),
            db.tools@.len() == all.len(),
            db.jobs@ == old(db).jobs@,
            db.printer == old(db).printer,
            forall|k: int|
                0 <= k < i ==> #[trigger] db.tools@[k] == with_tray(all[k], job_id, slot_map@),
            forall|k: int| i <= k < all.len() ==> #[trigger] db.tools@[k] == all[k],
        decreases db.tools.len() - i,
    {
        if db.tools[i].job_id == job_id {
            let tool: u32 = db.tools[i].tool.tool_index;
            let mut tray: Option<(i64, i64)> = None;
            let mut k: usize = 0;
            while k < slot_map.len()
                invariant
                    k <= slot_map@.len(),
                    tray == mapped_tray(slot_map@.take(k as int), tool),
                decreases slot_map.len() - k,
            {
                assert(slot_map@.take(k + 1).drop_last() =~= slot_map@.take(k as int));
                let slot = slot_map[k];
                if slot.t == tool {
                    tray = Some((slot.canvas_id as i64, slot.tray_id as i64));
                }
                k += 1;
            }
            assert(slot_map@.take(k as int) =~= slot_map@);
            if let Some((canvas_id, tray_id)) = tray {
                db.tools[i].tool.canvas_id = Some(canvas_id);
                db.tools[i].tool.tray_id = Some(tray_id);
            }
        }
        i += 1;
    }
    assert(db.tools@ =~= all.map_values(|row: ToolRow| with_tray(row, job_id, slot_map@)));
    let i = find_job(&db.jobs, job_id);
    if i < db.jobs.len() {
        db.jobs[i].progress = 0;
        if task_uuid.is_some() {
            db.jobs[i].printer_task_uuid = task_uuid;
        }
    }
}

pub open spec fn percent(progress: i64) -> i64 {
    if progress < 0 {
        0
    } else if progress > 100 {
        100
    } else {
        progress
    }
}

fn clamp_percent(progress: i64) -> (r: i64)
    ensures
        r == percent(progress),
        0 <= r <= 100,
{
    if progress < 0 {
        0
    } else if progress > 100 {
        100
    } else {
        progress
    }
}

pub fn set_progress(db: &mut Jobs, job_id: i64, progress: i64)
    ensures
        old(db).well_formed() ==> final(db).well_formed(),
        final(db).tools@ == old(db).tools@,
        final(db).printer == old(db).printer,
        ({
            let before = old(db).jobs@;
            let i = job_at(before, job_id, 0);
            final(db).jobs@ == if i < before.len() {
                before.update(i, Job { progress: percent(progress), ..before[i] })
            } else {
                before
            }
        }),
{
    let i = find_job(&db.jobs, job_id);
    if i < db.jobs.len() {
        db.jobs[i].progress = clamp_percent(progress);
    }
}

// ---------------------------------------------------------------------------------------------
// Moving in the queue
// ---------------------------------------------------------------------------------------------

/// Of two places, whether `a` is nearer to where one comes from.
pub open spec fn nearer(a: i64, b: i64, earlier: bool) -> bool {
    if earlier { a > b } else { a < b }
}

/// The queued job next to the given place among the first `n` jobs, or -1.
pub open spec fn neighbour(jobs: Seq<Job>, position: i64, earlier: bool, n: int) -> int
    decreases n,
{
    if n <= 0 {
        -1
    } else {
        let before = neighbour(jobs, position, earlier, n - 1);
        let job = jobs[n - 1];
        if job.state == JobState::Queued && nearer(position, job.position, earlier) && (before < 0
            || nearer(job.position, jobs[before].position, earlier)) {
            n - 1
        } else {
            before
        }
    }
}

/// Two jobs with their places exchanged.
pub open spec fn swapped(jobs: Seq<Job>, i: int, j: int) -> Seq<Job> {
    jobs.update(i, Job { position: jobs[j].position, ..jobs[i] }).update(
        j,
        Job { position: jobs[i].position, ..jobs[j] },
    )
}

/// The queue after a job has moved by one place, if it can.
pub open spec fn moved(jobs: Seq<Job>, id: i64, earlier: bool) -> Option<Seq<Job>> {
    let i = job_at(jobs, id, 0);
    if i >= jobs.len() || jobs[i].state != JobState::Queued {
        None
    } else {
        let j = neighbour(jobs, jobs[i].position, earlier, jobs.len() as int);
        if j < 0 {
            None
        } else {
            Some(swapped(jobs, i, j))
        }
    }
}

proof fn lemma_neighbour(jobs: Seq<Job>, position: i64, earlier: bool, n: int)
    requires
        0 <= n <= jobs.len(),
    ensures
        ({
            let j = neighbour(jobs, position, earlier, n);
            &&& -1 <= j < n
            &&& j >= 0 ==> jobs[j].state == JobState::Queued && nearer(
                position,
                jobs[j].position,
                earlier,
            )
            &&& forall|k: int|
                0 <= k < n && (#[trigger] jobs[k]).state == JobState::Queued && nearer(
                    position,
                    jobs[k].position,
                    earlier,
                ) ==> j >= 0 && !nearer(jobs[k].position, jobs[j].position, earlier)
        }),
    decreases n,
{
    if n > 0 {
        lemma_neighbour(jobs, position, earlier, n - 1);
    }
}

/// A queued job that no other stands between is the neighbour.
proof fn lemma_neighbour_is(jobs: Seq<Job>, position: i64, earlier: bool, n: int, j: int)
    requires
        0 <= j < n <= jobs.len(),
        jobs[j].state == JobState::Queued,
        nearer(position, jobs[j].position, earlier),
        forall|k: int|
            0 <= k < n && k != j && (#[trigger] jobs[k]).state == JobState::Queued && nearer(
                position,
                jobs[k].position,
                earlier,
            ) ==> nearer(jobs[j].position, jobs[k].position, earlier),
    ensures
        neighbour(jobs, position, earlier, n) == j,
{
    lemma_neighbour(jobs, position, earlier, n);
    let found = neighbour(jobs, position, earlier, n);
    assert(jobs[j].state == JobState::Queued);
    assert(jobs[found].state == JobState::Queued);
}

/// Swaps a queued job with its neighbour. Returns whether it moved.
pub fn move_queued(db: &mut Jobs, job_id: i64, earlier: bool) -> (r: bool)
    ensures
        old(db).well_formed() ==> final(db).well_formed(),
        final(db).tools@ == old(db).tools@,
        final(db).printer == old(db).printer,
        match moved(old(db).jobs@, job_id, earlier) {
            Some(after) => r && final(db).jobs@ == after,
            None => !r && final(db).jobs@ == old(db).jobs@,
        },
{
    let i = find_job(&db.jobs, job_id);
    if i >= db.jobs.len() || db.jobs[i].state != JobState::Queued {
        return false;
    }
    let position: i64 = db.jobs[i].position;
    let mut best: Option<usize> = None;
    let mut k: usize = 0;
    while k < db.jobs.len()
        invariant
            k <= db.jobs@.len(),
            *db == *old(db),
            best matches Some(j) ==> j < k && neighbour(db.jobs@, position, earlier, k as int) == j,
            best is None ==> neighbour(db.jobs@, position, earlier, k as int) == -1,
        decreases db.jobs.len() - k,
    {
        let other: i64 = db.jobs[k].position;
        let beyond = if earlier {
            position > other
        } else {
            position < other
        };
        if db.jobs[k].state == JobState::Queued && beyond {
            let closer = match best {
                Some(j) => if earlier {
                    other > db.jobs[j].position
                } else {
                    other < db.jobs[j].position
                },
                None => true,
            };
            if closer {
                best = Some(k);
            }
        }
        k += 1;
    }
    match best {
        None => false,
        Some(j) => {
            proof {
                lemma_neighbour(db.jobs@, position, earlier, db.jobs@.len() as int);
            }
            let other: i64 = db.jobs[j].position;
            db.jobs[i].position = other;
            db.jobs[j].position = position;
            assert(db.jobs@ =~= swapped(old(db).jobs@, i as int, j as int));
            true
        },
    }
}

/// Moving a job one place and back again leaves the queue as it was.
pub proof fn moving_back_undoes_a_move(db: Jobs, id: i64, earlier: bool)
    requires
        db.well_formed(),
        moved(db.jobs@, id, earlier) is Some,
    ensures
        moved(moved(db.jobs@, id, earlier)->0, id, !earlier) == Some(db.jobs@),
{
    let jobs = db.jobs@;
    let n = jobs.len() as int;
    let i = job_at(jobs, id, 0);
    let j = neighbour(jobs, jobs[i].position, earlier, n);
    let after = swapped(jobs, i, j);
    lemma_job_at(jobs, id, 0);
    lemma_neighbour(jobs, jobs[i].position, earlier, n);
    assert forall|k: int| 0 <= k < n implies (#[trigger] after[k]).id == jobs[k].id
        && after[k].state == jobs[k].state by {}
    assert forall|k: int| 0 <= k < i implies (#[trigger] after[k]).id != id by {
        assert(jobs[k].id != id);
    }
    lemma_job_is(after, id, 0, i);
    assert forall|k: int|
        0 <= k < n && k != j && (#[trigger] after[k]).state == JobState::Queued && nearer(
            after[i].position,
            after[k].position,
            !earlier,
        ) implies nearer(after[j].position, after[k].position, !earlier) by {
        assert(jobs[k].state == JobState::Queued);
        if k != i {
            // Nothing stands between the two that changed places.
            assert(after[k] == jobs[k]);
            if nearer(jobs[i].position, jobs[k].position, earlier) {
                assert(!nearer(jobs[k].position, jobs[j].position, earlier));
            }
            if k < i {
                assert(jobs[k].position != jobs[i].position);
            } else {
                assert(jobs[i].position != jobs[k].position);
            }
            if k < j {
                assert(jobs[k].position != jobs[j].position);
            } else {
                assert(jobs[j].position != jobs[k].position);
            }
        }
    }
    lemma_neighbour_is(after, after[i].position, !earlier, n, j);
    assert(swapped(after, i, j) =~= jobs);
}

// ---------------------------------------------------------------------------------------------
// The printer
// ---------------------------------------------------------------------------------------------

pub fn bed_clear(db: &Jobs) -> (r: bool)
    ensures
        r == db.printer.bed_clear,
{
    db.printer.bed_clear
}

pub fn set_bed_clear(db: &mut Jobs, clear: bool, user_id: Option<i64>, now: i64)
    ensures
        final(db).jobs@ == old(db).jobs@,
        final(db).tools@ == old(db).tools@,
        final(db).printer == (PrinterRecord {
            bed_clear: clear,
            bed_changed_by: user_id,
            bed_changed_at: Some(now),
            ..old(db).printer
        }),
{
    db.printer.bed_clear = clear;
    db.printer.bed_changed_by = user_id;
    db.printer.bed_changed_at = Some(now);
}

#[derive(Debug, Clone, PartialEq, Eq)]
pub struct MountedNozzle {
    pub nozzle: Nozzle,
    /// `None` while nobody has recorded one and `PRINTER_NOZZLE` is assumed.
    pub recorded: Option<NozzleRecord>,
}

#[derive(Debug, Clone, PartialEq, Eq)]
pub struct NozzleRecord {
    /// `None` once that account is deleted.
    pub by: Option<String>,
    pub at: i64,
}

/// The recorded nozzle, or the assumed one while none is recorded.
pub fn mounted_nozzle(db: &Jobs, accounts: &Accounts, assumed: Nozzle) -> (r: MountedNozzle)
    ensures
        match (db.printer.nozzle, db.printer.nozzle_changed_at) {
            (Some(nozzle), Some(at)) => {
                &&& r.nozzle == nozzle
                &&& r.recorded is Some
                &&& r.recorded->0.at == at
                &&& r.recorded->0.by == match db.printer.nozzle_changed_by {
                    Some(id) => {
                        let k = accounts::account_at(accounts.accounts@, id, 0);
                        if k < accounts.accounts@.len() {
                            Some(accounts.accounts@[k].user.username)
                        } else {
                            None
                        }
                    },
                    None => None,
                }
            },
            _ => r.nozzle == assumed && r.recorded is None,
        },
{
    match (db.printer.nozzle, db.printer.nozzle_changed_at) {
        (Some(nozzle), Some(at)) => {
            let by: Option<String> = match db.printer.nozzle_changed_by {
                Some(id) => match accounts::user(accounts, id) {
                    Some(user) => Some(user.username),
                    None => None,
                },
                None => None,
            };
            MountedNozzle { nozzle, recorded: Some(NozzleRecord { by, at }) }
        },
        _ => MountedNozzle { nozzle: assumed, recorded: None },
    }
}

pub fn set_mounted_nozzle(db: &mut Jobs, nozzle: Nozzle, user_id: i64, now: i64)
    ensures
        final(db).jobs@ == old(db).jobs@,
        final(db).tools@ == old(db).tools@,
        final(db).printer == (PrinterRecord {
            nozzle: Some(nozzle),
            nozzle_changed_by: Some(user_id),
            nozzle_changed_at: Some(now),
            ..old(db).printer
        }),
{
    db.printer.nozzle = Some(nozzle);
    db.printer.nozzle_changed_by = Some(user_id);
    db.printer.nozzle_changed_at = Some(now);
}

// ---------------------------------------------------------------------------------------------
// Finishing
// ---------------------------------------------------------------------------------------------

/// What a tool is charged for: all of its filament when the print is done, the printed share
/// otherwise.
pub open spec fn charge(tool: JobTool, outcome: JobState, progress: i64) -> int {
    if outcome == JobState::Done {
        tool.mg as int
    } else {
        num::rounded(tool.mg * percent(progress), 100)
    }
}

/// What is taken from which spool, as `(spool_id, mg)`.
pub open spec fn charges(tools: Seq<JobTool>, outcome: JobState, progress: i64) -> Seq<(i64, i64)>
    decreases tools.len(),
{
    if tools.len() == 0 {
        seq![]
    } else {
        let before = charges(tools.drop_last(), outcome, progress);
        let mg = charge(tools.last(), outcome, progress);
        match tools.last().spool_id {
            Some(spool_id) if mg > 0 => before.push((spool_id, mg as i64)),
            _ => before,
        }
    }
}

/// What is taken from one spool in all.
pub open spec fn charged_to(charges: Seq<(i64, i64)>, spool_id: i64) -> int
    decreases charges.len(),
{
    if charges.len() == 0 {
        0
    } else {
        charged_to(charges.drop_last(), spool_id) + if charges.last().0 == spool_id {
            charges.last().1 as int
        } else {
            0
        }
    }
}

/// The spools after the charges have been taken from them.
pub open spec fn deducted(spools: Seq<inventory::Spool>, charges: Seq<(i64, i64)>) -> Seq<
    inventory::Spool,
>
    decreases charges.len(),
{
    if charges.len() == 0 {
        spools
    } else {
        let before = deducted(spools, charges.drop_last());
        let (spool_id, mg) = charges.last();
        let i = inventory::spool_at(before, spool_id, 0);
        if 0 <= i < before.len() {
            before.update(
                i,
                inventory::Spool { remaining_mg: (before[i].remaining_mg - mg) as i64, ..before[i] },
            )
        } else {
            before
        }
    }
}

pub open spec fn all_known(spools: Seq<inventory::Spool>, charges: Seq<(i64, i64)>) -> bool {
    forall|k: int|
        0 <= k < charges.len() ==> inventory::spool_at(spools, (#[trigger] charges[k]).0, 0)
            < spools.len()
}

pub open spec fn kind_of(outcome: JobState) -> ConsumptionKind {
    if outcome == JobState::Done {
        ConsumptionKind::Print
    } else {
        ConsumptionKind::Estimate
    }
}

/// The ledger entry for a charge, with the owner and the value the spool has.
pub open spec fn is_charge_entry(
    entry: inventory::LedgerEntry,
    id: int,
    spool: inventory::Spool,
    job: Job,
    kind: ConsumptionKind,
    mg: i64,
    now: i64,
) -> bool {
    &&& entry.id == id
    &&& entry.spool_id == spool.id
    &&& entry.user_id == job.owned_by()
    &&& entry.job_id == Some(job.id)
    &&& entry.kind == kind
    &&& entry.mg == mg
    &&& entry.note == job.name
    &&& entry.created_at == now
    &&& entry.spool_owner_id == spool.owner_id()
    &&& entry.value matches Some(value) ==> inventory::value_of(spool, mg as int) == Some(
        value as int,
    )
    &&& entry.value is None ==> inventory::value_of(spool, mg as int) is None
}

/// What the charges of a job added to the ledger: one entry each, in order.
pub open spec fn charges_entered(
    before: Inventory,
    after: Inventory,
    job: Job,
    outcome: JobState,
    taken: Seq<(i64, i64)>,
    now: i64,
) -> bool {
    let first = before.ledger@.len() as int;
    &&& after.ledger@.len() == first + taken.len()
    &&& after.ledger@.take(first) == before.ledger@
    &&& forall|k: int|
        0 <= k < taken.len() ==> is_charge_entry(
            #[trigger] after.ledger@[first + k],
            inventory::next_entry_id(before.ledger@) + k,
            before.spools@[inventory::spool_at(before.spools@, taken[k].0, 0)],
            job,
            kind_of(outcome),
            taken[k].1,
            now,
        )
}

/// What the charges leave of every spool is a weight that 64 bits hold, and there are ids for
/// their entries.
pub open spec fn chargeable(db: Inventory, charges: Seq<(i64, i64)>) -> bool {
    &&& forall|i: int|
        0 <= i < db.spools@.len() ==> (#[trigger] db.spools@[i]).remaining_mg - charged_to(
            charges,
            db.spools@[i].id,
        ) >= i64::MIN
    &&& inventory::next_entry_id(db.ledger@) + charges.len() <= i64::MAX
}

proof fn lemma_charged_to(charges: Seq<(i64, i64)>, spool_id: i64, k: int)
    requires
        0 <= k <= charges.len(),
        forall|i: int| 0 <= i < charges.len() ==> (#[trigger] charges[i]).1 > 0,
    ensures
        0 <= charged_to(charges.take(k), spool_id) <= charged_to(charges, spool_id),
    decreases charges.len(),
{
    if k < charges.len() {
        let front = charges.drop_last();
        assert forall|i: int| 0 <= i < front.len() implies (#[trigger] front[i]).1 > 0 by {
            assert(front[i] == charges[i]);
        }
        lemma_charged_to(front, spool_id, k);
        assert(front.take(k) =~= charges.take(k));
        assert(charges[charges.len() - 1].1 > 0);
    } else {
        assert(charges.take(k) =~= charges);
        if charges.len() > 0 {
            let front = charges.drop_last();
            assert forall|i: int| 0 <= i < front.len() implies (#[trigger] front[i]).1 > 0 by {
                assert(front[i] == charges[i]);
            }
            lemma_charged_to(front, spool_id, k - 1);
            assert(charges[charges.len() - 1].1 > 0);
        }
    }
}

/// Deducting changes what remains and nothing else of a spool.
proof fn lemma_deducted(spools: Seq<inventory::Spool>, charges: Seq<(i64, i64)>)
    ensures
        deducted(spools, charges).len() == spools.len(),
        forall|i: int|
            0 <= i < spools.len() ==> (#[trigger] deducted(spools, charges)[i]) == (
            inventory::Spool {
                remaining_mg: deducted(spools, charges)[i].remaining_mg,
                ..spools[i]
            }),
    decreases charges.len(),
{
    if charges.len() > 0 {
        lemma_deducted(spools, charges.drop_last());
    }
}

fn find_charges(tools: &Vec<JobTool>, outcome: JobState, progress: i64) -> (r: Vec<(i64, i64)>)
    ensures
        r@ == charges(tools@, outcome, progress),
        forall|k: int| 0 <= k < r@.len() ==> 0 < (#[trigger] r@[k]).1,
        r@.len() <= tools@.len(),
{
    let mut out: Vec<(i64, i64)> = Vec::new();
    let mut i: usize = 0;
    while i < tools.len()
        invariant
            i <= tools@.len(),
            out@.len() <= i,
            forall|k: int| 0 <= k < out@.len() ==> 0 < (#[trigger] out@[k]).1,
            out@ == charges(tools@.take(i as int), outcome, progress),
        decreases tools.len() - i,
    {
        assert(tools@.take(i + 1).drop_last() =~= tools@.take(i as int));
        let all: i64 = tools[i].mg;
        let mg: i64 = if outcome == JobState::Done {
            all
        } else {
            let share: i64 = clamp_percent(progress);
            assert(all >= 0 ==> 0 <= all * share <= all * 100) by (nonlinear_arith)
                requires
                    0 <= share <= 100,
            ;
            assert(all <= 0 ==> all * 100 <= all * share <= 0) by (nonlinear_arith)
                requires
                    0 <= share <= 100,
            ;
            num::round_div(all as i128 * share as i128, 100) as i64
        };
        if let Some(spool_id) = tools[i].spool_id {
            if mg > 0 {
                out.push((spool_id, mg));
            }
        }
        i += 1;
    }
    assert(tools@.take(i as int) =~= tools@);
    out
}

fn spools_known(spools: &Vec<inventory::Spool>, taken: &Vec<(i64, i64)>) -> (r: bool)
    ensures
        r == all_known(spools@, taken@),
{
    let mut k: usize = 0;
    while k < taken.len()
        invariant
            k <= taken@.len(),
            forall|m: int|
                0 <= m < k ==> inventory::spool_at(spools@, (#[trigger] taken@[m]).0, 0)
                    < spools@.len(),
        decreases taken.len() - k,
    {
        if inventory::find_spool(spools, taken[k].0) >= spools.len() {
            assert(inventory::spool_at(spools@, taken@[k as int].0, 0) >= spools@.len());
            return false;
        }
        k += 1;
    }
    true
}

/// Ends a printing job and deducts its filament: all of it when done, the printed share
/// otherwise (as an estimate). Either everything is recorded or nothing.
pub fn finish(
    db: &mut Jobs,
    inventory: &mut Inventory,
    job: &Job,
    outcome: JobState,
    progress: i64,
    error: Option<String>,
    now: i64,
) -> (r: Result<(), JobError>)
    requires
        old(inventory).well_formed(),
        last_position(old(db).jobs@) < i64::MAX,
        chargeable(
            *old(inventory),
            charges(tools_of(old(db).tools@, job.id), outcome, progress),
        ),
    ensures
        old(db).well_formed() ==> final(db).well_formed(),
        final(inventory).well_formed(),
        final(inventory).balances_with(*old(inventory)),
        final(inventory).bindings@ == old(inventory).bindings@,
        final(db).tools@ == old(db).tools@,
        final(db).printer == old(db).printer,
        ({
            let before = old(db).jobs@;
            let i = job_at(before, job.id, 0);
            let taken = charges(tools_of(old(db).tools@, job.id), outcome, progress);
            let unchanged = final(db).jobs@ == before && final(inventory).spools@ == old(
                inventory).spools@ && final(inventory).ledger@ == old(inventory).ledger@;
            if !JobState::Printing.leads_to(outcome) {
                r == Err::<(), JobError>(
                    JobError::IllegalTransition { from: JobState::Printing, to: outcome },
                ) && unchanged
            } else if i >= before.len() || before[i].state != JobState::Printing {
                r == Err::<(), JobError>(JobError::StateChanged { expected: JobState::Printing })
                    && unchanged
            } else if !all_known(old(inventory).spools@, taken) {
                r == Err::<(), JobError>(JobError::Inventory(InventoryError::NotFound)) && unchanged
            } else {
                &&& r == Ok::<(), JobError>(())
                &&& final(db).jobs@ == before.update(
                    i,
                    Job {
                        progress,
                        ..stepped(before[i], outcome, error, last_position(before) + 1, now)
                    },
                )
                &&& final(inventory).spools@ == deducted(old(inventory).spools@, taken)
                &&& charges_entered(*old(inventory), *final(inventory), *job, outcome, taken, now)
            }
        }),
{
    let needed = tools(db, job.id);
    let taken = find_charges(&needed, outcome, progress);
    if !JobState::Printing.can_become(outcome) {
        return Err(JobError::IllegalTransition { from: JobState::Printing, to: outcome });
    }
    let i = find_job(&db.jobs, job.id);
    if i >= db.jobs.len() || db.jobs[i].state != JobState::Printing {
        return Err(JobError::StateChanged { expected: JobState::Printing });
    }
    if !spools_known(&inventory.spools, &taken) {
        return Err(JobError::Inventory(InventoryError::NotFound));
    }
    let moved = transition(db, job.id, JobState::Printing, outcome, error, now);
    assert(moved == Ok::<(), JobError>(()));
    db.jobs[i].progress = progress;
    assert(db.jobs@ =~= old(db).jobs@.update(
        i as int,
        Job {
            progress,
            ..stepped(
                old(db).jobs@[i as int],
                outcome,
                error,
                last_position(old(db).jobs@) + 1,
                now,
            )
        },
    ));
    charge_all(inventory, job, outcome, &taken, now);
    Ok(())
}

/// A job is charged once: when it has finished, finishing it again, whatever the outcome, finds
/// that it is not printing and takes nothing from any spool.
pub proof fn a_finished_job_is_not_charged_again(
    jobs: Seq<Job>,
    id: i64,
    outcome: JobState,
    progress: i64,
    error: Option<String>,
    back: int,
    now: i64,
)
    requires
        JobState::Printing.leads_to(outcome),
        job_at(jobs, id, 0) < jobs.len(),
        jobs[job_at(jobs, id, 0)].state == JobState::Printing,
    ensures
        ({
            let i = job_at(jobs, id, 0);
            let after = jobs.update(
                i,
                Job { progress, ..stepped(jobs[i], outcome, error, back, now) },
            );
            job_at(after, id, 0) == i && after[i].state != JobState::Printing
        }),
{
    let i = job_at(jobs, id, 0);
    let after = jobs.update(i, Job { progress, ..stepped(jobs[i], outcome, error, back, now) });
    lemma_job_at(jobs, id, 0);
    lemma_job_is(after, id, 0, i);
}

/// Takes the charges from their spools, each with its entry in the ledger.
fn charge_all(
    inventory: &mut Inventory,
    job: &Job,
    outcome: JobState,
    taken: &Vec<(i64, i64)>,
    now: i64,
)
    requires
        old(inventory).well_formed(),
        chargeable(*old(inventory), taken@),
        all_known(old(inventory).spools@, taken@),
        forall|k: int| 0 <= k < taken@.len() ==> 0 < (#[trigger] taken@[k]).1,
    ensures
        final(inventory).well_formed(),
        final(inventory).balances_with(*old(inventory)),
        final(inventory).bindings@ == old(inventory).bindings@,
        final(inventory).spools@ == deducted(old(inventory).spools@, taken@),
        charges_entered(*old(inventory), *final(inventory), *job, outcome, taken@, now),
{
    let ghost start = *inventory;
    let ghost first = start.ledger@.len() as int;
    let kind = if outcome == JobState::Done {
        ConsumptionKind::Print
    } else {
        ConsumptionKind::Estimate
    };
    proof {
        assert(taken@.take(0) =~= seq![]);
        assert(start.ledger@.take(first) =~= start.ledger@);
    }
    let mut k: usize = 0;
    while k < taken.len()
        invariant
            k <= taken@.len(),
            start.well_formed(),
            inventory.well_formed(),
            inventory.balances_with(start),
            inventory.bindings@ == start.bindings@,
            chargeable(start, taken@),
            all_known(start.spools@, taken@),
            forall|m: int| 0 <= m < taken@.len() ==> 0 < (#[trigger] taken@[m]).1,
            inventory.spools@ == deducted(start.spools@, taken@.take(k as int)),
            first == start.ledger@.len(),
            inventory.ledger@.len() == first + k,
            inventory.ledger@.take(first) == start.ledger@,
            inventory::next_entry_id(inventory.ledger@) == inventory::next_entry_id(start.ledger@)
                + k,
            kind == kind_of(outcome),
            forall|m: int|
                0 <= m < start.spools@.len() ==> (#[trigger] inventory.spools@[m]).remaining_mg
                    == start.spools@[m].remaining_mg - charged_to(
                    taken@.take(k as int),
                    start.spools@[m].id,
                ),
            forall|m: int|
                0 <= m < k ==> is_charge_entry(
                    #[trigger] inventory.ledger@[first + m],
                    inventory::next_entry_id(start.ledger@) + m,
                    start.spools@[inventory::spool_at(start.spools@, taken@[m].0, 0)],
                    *job,
                    kind,
                    taken@[m].1,
                    now,
                ),
        decreases taken.len() - k,
    {
        let ghost before = *inventory;
        let (spool_id, mg) = taken[k];
        let ghost at = inventory::spool_at(start.spools@, spool_id, 0);
        proof {
            lemma_charged_to(taken@, spool_id, k as int);
            lemma_charged_to(taken@, spool_id, k + 1);
            lemma_deducted(start.spools@, taken@.take(k as int));
            inventory::lemma_spool_at(start.spools@, spool_id, 0);
            assert forall|m: int| 0 <= m < start.spools@.len() implies (
            #[trigger] inventory.spools@[m]).id == start.spools@[m].id by {}
            inventory::lemma_spool_at_same_ids(start.spools@, inventory.spools@, spool_id, 0);
            assert(inventory::spool_at(start.spools@, taken@[k as int].0, 0) < start.spools@.len());
            assert(start.spools@[at].remaining_mg - charged_to(taken@, spool_id) >= i64::MIN);
            assert(taken@.take(k + 1).drop_last() =~= taken@.take(k as int));
        }
        let recorded = inventory::record_use(
            inventory,
            spool_id,
            job.owner_id(),
            job.id,
            kind,
            mg,
            job.name.clone(),
            now,
        );
        proof {
            inventory::balances_chain(start, before, *inventory);
            assert forall|m: int| 0 <= m < start.spools@.len() implies (
            #[trigger] inventory.spools@[m]).remaining_mg == start.spools@[m].remaining_mg - charged_to(
                taken@.take(k + 1),
                start.spools@[m].id,
            ) by {
                assert(before.spools@[m].id == start.spools@[m].id);
                if m != at {
                    assert(start.spools@[m].id != start.spools@[at].id);
                    assert(inventory.spools@[m] == before.spools@[m]);
                }
            }
            assert(inventory.spools@ =~= deducted(start.spools@, taken@.take(k + 1)));
            assert(inventory.ledger@.take(first) =~= start.ledger@) by {
                assert(before.ledger@ == inventory.ledger@.drop_last());
                assert(inventory.ledger@.take(first) =~= before.ledger@.take(first));
            }
            assert forall|m: int| 0 <= m < k + 1 implies is_charge_entry(
                #[trigger] inventory.ledger@[first + m],
                inventory::next_entry_id(start.ledger@) + m,
                start.spools@[inventory::spool_at(start.spools@, taken@[m].0, 0)],
                *job,
                kind,
                taken@[m].1,
                now,
            ) by {
                if m < k {
                    assert(inventory.ledger@[first + m] == before.ledger@[first + m]);
                } else {
                    assert(inventory.ledger@[first + m] == inventory.ledger@.last());
                }
            }
        }
        k += 1;
    }
    assert(taken@.take(k as int) =~= taken@);
}

// ---------------------------------------------------------------------------------------------
// Starting
// ---------------------------------------------------------------------------------------------

#[derive(Debug, Clone, PartialEq, Eq)]
pub enum BlockReason {
    PrinterOffline,
    AnotherJobActive,
    PrinterBusy,
    BedNotClear,
    SpoolNotChosen { tool: u32 },
    SpoolNotLoaded { tool: u32 },
    TrayEmpty { tool: u32, canvas_id: i64, tray_id: i64 },
    NotEnoughFilament { tool: u32, needed: i64, left: i64 },
    NozzleMismatch { sliced_um: u64, mounted: Nozzle },
    Schedule(ScheduleBlock),
}

pub struct StartContext<'a> {
    pub snapshot: &'a PrinterSnapshot,
    pub bindings: &'a Vec<Binding>,
    pub bed_clear: bool,
    pub nozzle: Nozzle,
    /// A job is already uploading or printing.
    pub other_job_active: bool,
    pub rules: &'a Vec<Rule>,
    pub now: i64,
    pub tz: &'a Zone,
    /// In millionths.
    pub estimate_margin: u64,
}

/// The first binding of a spool from position `i` on, or the number of bindings.
pub open spec fn binding_at(bindings: Seq<Binding>, spool_id: i64, i: int) -> int
    decreases bindings.len() - i,
{
    if i >= bindings.len() {
        bindings.len() as int
    } else if bindings[i].spool.id == spool_id {
        i
    } else {
        binding_at(bindings, spool_id, i + 1)
    }
}

/// What the first `n` tools together need of a spool.
pub open spec fn needed_of(tools: Seq<JobTool>, spool_id: i64, n: int) -> int
    decreases n,
{
    if n <= 0 {
        0
    } else {
        let tool = tools[n - 1];
        needed_of(tools, spool_id, n - 1) + if tool.mg > 0 && tool.spool_id == Some(spool_id) {
            tool.mg as int
        } else {
            0
        }
    }
}

/// What the tools need in all.
pub open spec fn needed_in_all(tools: Seq<JobTool>, n: int) -> int
    decreases n,
{
    if n <= 0 {
        0
    } else {
        needed_in_all(tools, n - 1) + if tools[n - 1].mg > 0 {
            tools[n - 1].mg as int
        } else {
            0
        }
    }
}

pub open spec fn fits_u32(n: i64) -> bool {
    0 <= n <= u32::MAX
}

/// What keeps the tool at position `i` from printing, if it uses filament at all: no spool is
/// chosen; its spool is in no tray (or in one that the printer does not know by that number);
/// the tray is empty; or the spool has not enough left for it and the tools before it.
pub open spec fn tool_blocked(
    tools: Seq<JobTool>,
    bindings: Seq<Binding>,
    canvas: Option<model::CanvasInfo>,
    i: int,
) -> Option<BlockReason> {
    let tool = tools[i].tool_index;
    if tools[i].mg <= 0 {
        None
    } else {
        match tools[i].spool_id {
            None => Some(BlockReason::SpoolNotChosen { tool }),
            Some(spool_id) => {
                let k = binding_at(bindings, spool_id, 0);
                let canvas_id = bindings[k].canvas_id;
                let tray_id = bindings[k].tray_id;
                let left = bindings[k].spool.remaining_mg;
                let needed = needed_of(tools, spool_id, i + 1);
                if k >= bindings.len() || !fits_u32(canvas_id) || !fits_u32(tray_id) {
                    Some(BlockReason::SpoolNotLoaded { tool })
                } else if !is_loaded(canvas, canvas_id, tray_id) {
                    Some(BlockReason::TrayEmpty { tool, canvas_id, tray_id })
                } else if needed > left {
                    Some(BlockReason::NotEnoughFilament { tool, needed: needed as i64, left })
                } else {
                    None
                }
            },
        }
    }
}

/// The printer reports filament in the tray.
pub open spec fn is_loaded(canvas: Option<model::CanvasInfo>, canvas_id: i64, tray_id: i64) -> bool {
    match canvas {
        Some(info) => match inventory::tray_at(info.canvas_list@, canvas_id, tray_id, 0) {
            Some(tray) => tray.holds_filament(),
            None => false,
        },
        None => false,
    }
}

/// What keeps the first blocked tool from position `i` on from printing.
pub open spec fn first_blocked(
    tools: Seq<JobTool>,
    bindings: Seq<Binding>,
    canvas: Option<model::CanvasInfo>,
    i: int,
) -> Option<BlockReason>
    decreases tools.len() - i,
{
    if i >= tools.len() {
        None
    } else {
        match tool_blocked(tools, bindings, canvas, i) {
            Some(reason) => Some(reason),
            None => first_blocked(tools, bindings, canvas, i + 1),
        }
    }
}

/// The tray for each of the first `n` tools that uses filament.
pub open spec fn slots(tools: Seq<JobTool>, bindings: Seq<Binding>, n: int) -> Seq<SlotMapEntry>
    decreases n,
{
    if n <= 0 {
        seq![]
    } else {
        let before = slots(tools, bindings, n - 1);
        let tool = tools[n - 1];
        if tool.mg > 0 {
            let binding = bindings[binding_at(bindings, tool.spool_id->0, 0)];
            before.push(
                SlotMapEntry {
                    t: tool.tool_index,
                    canvas_id: binding.canvas_id as u32,
                    tray_id: binding.tray_id as u32,
                },
            )
        } else {
            before
        }
    }
}

/// When a job that starts now ends, with the margin on its estimate. None where it has no
/// estimate, or would end beyond the calendar.
pub open spec fn estimated_end(seconds: Option<i64>, margin: u64, now: i64) -> Option<i64> {
    match seconds {
        None => None,
        Some(seconds) => {
            let end = now + num::rounded(seconds * margin, 1_000_000);
            if zone::FIRST_SECOND <= end <= zone::LAST_SECOND {
                Some(end as i64)
            } else {
                None
            }
        },
    }
}

impl<'a> StartContext<'a> {
    pub open spec fn online(self) -> bool {
        self.snapshot.link is Registered && self.snapshot.status is Some
    }

    /// The first reason that the job cannot start now.
    pub open spec fn blocked(self, job: Job, tools: Seq<JobTool>) -> Option<BlockReason> {
        if !self.online() {
            Some(BlockReason::PrinterOffline)
        } else if self.other_job_active {
            Some(BlockReason::AnotherJobActive)
        } else if model::machine_state(self.snapshot.status->0.machine_status.status)
            != MachineState::Idle {
            Some(BlockReason::PrinterBusy)
        } else if job.nozzle_um is Some && job.nozzle_um->0 != self.nozzle.diameter() {
            Some(
                BlockReason::NozzleMismatch { sliced_um: job.nozzle_um->0, mounted: self.nozzle },
            )
        } else if !self.bed_clear {
            Some(BlockReason::BedNotClear)
        } else {
            match first_blocked(tools, self.bindings@, self.snapshot.canvas, 0) {
                Some(reason) => Some(reason),
                None => match schedule::blocked_by(
                    schedule::ruled_in(self.rules@, self.now as int, *self.tz),
                    self.now,
                    estimated_end(job.estimated_seconds, self.estimate_margin, self.now),
                ) {
                    Some(block) => Some(BlockReason::Schedule(block)),
                    None => None,
                },
            }
        }
    }
}

proof fn lemma_tool_reasons(
    tools: Seq<JobTool>,
    bindings: Seq<Binding>,
    canvas: Option<model::CanvasInfo>,
    i: int,
)
    ensures
        first_blocked(tools, bindings, canvas, i) matches Some(reason) ==> reason.describable(),
    decreases tools.len() - i,
{
    if i < tools.len() && tool_blocked(tools, bindings, canvas, i) is None {
        lemma_tool_reasons(tools, bindings, canvas, i + 1);
    }
}

/// What keeps a job from starting can always be said.
pub proof fn reasons_can_be_said(ctx: StartContext, job: Job, tools: Seq<JobTool>)
    ensures
        ctx.blocked(job, tools) matches Some(reason) ==> reason.describable(),
{
    lemma_tool_reasons(tools, ctx.bindings@, ctx.snapshot.canvas, 0);
}

proof fn lemma_needed(tools: Seq<JobTool>, spool_id: i64, n: int)
    requires
        0 <= n <= tools.len(),
    ensures
        0 <= needed_of(tools, spool_id, n) <= needed_in_all(tools, n) <= needed_in_all(
            tools,
            tools.len() as int,
        ),
    decreases tools.len() - n, 1int,
{
    lemma_needed_below(tools, spool_id, n);
    if n < tools.len() {
        lemma_needed(tools, spool_id, n + 1);
    }
}

proof fn lemma_needed_below(tools: Seq<JobTool>, spool_id: i64, n: int)
    requires
        0 <= n <= tools.len(),
    ensures
        0 <= needed_of(tools, spool_id, n) <= needed_in_all(tools, n),
    decreases n,
{
    if n > 0 {
        lemma_needed_below(tools, spool_id, n - 1);
    }
}

fn find_binding(bindings: &Vec<Binding>, spool_id: i64) -> (r: usize)
    ensures
        r == binding_at(bindings@, spool_id, 0),
        r <= bindings@.len(),
{
    let mut i: usize = 0;
    while i < bindings.len() && bindings[i].spool.id != spool_id
        invariant
            i <= bindings@.len(),
            binding_at(bindings@, spool_id, 0) == binding_at(bindings@, spool_id, i as int),
        decreases bindings.len() - i,
    {
        i += 1;
    }
    i
}

fn needed_so_far(tools: &[JobTool], spool_id: i64, n: usize) -> (r: i64)
    requires
        n <= tools@.len(),
        needed_in_all(tools@, tools@.len() as int) <= i64::MAX,
    ensures
        r == needed_of(tools@, spool_id, n as int),
{
    let mut total: i64 = 0;
    let mut i: usize = 0;
    while i < n
        invariant
            i <= n <= tools@.len(),
            needed_in_all(tools@, tools@.len() as int) <= i64::MAX,
            total == needed_of(tools@, spool_id, i as int),
        decreases n - i,
    {
        proof {
            lemma_needed(tools@, spool_id, i + 1);
            lemma_needed(tools@, spool_id, i as int);
        }
        if tools[i].mg > 0 {
            if let Some(id) = tools[i].spool_id {
                if id == spool_id {
                    total = total + tools[i].mg;
                }
            }
        }
        i += 1;
    }
    total
}

/// What keeps the tool at position `i` from printing, or its tray.
fn check_tool(tools: &[JobTool], bindings: &Vec<Binding>, snapshot: &PrinterSnapshot, i: usize) -> (r:
    Result<SlotMapEntry, BlockReason>)
    requires
        i < tools@.len(),
        tools@[i as int].mg > 0,
        needed_in_all(tools@, tools@.len() as int) <= i64::MAX,
    ensures
        match r {
            Ok(slot) => {
                let binding = bindings@[binding_at(bindings@, tools@[i as int].spool_id->0, 0)];
                &&& tool_blocked(tools@, bindings@, snapshot.canvas, i as int) is None
                &&& slot == SlotMapEntry {
                    t: tools@[i as int].tool_index,
                    canvas_id: binding.canvas_id as u32,
                    tray_id: binding.tray_id as u32,
                }
            },
            Err(reason) => tool_blocked(tools@, bindings@, snapshot.canvas, i as int) == Some(reason),
        },
{
    let tool: u32 = tools[i].tool_index;
    let spool_id: i64 = match tools[i].spool_id {
        Some(spool_id) => spool_id,
        None => {
            return Err(BlockReason::SpoolNotChosen { tool });
        },
    };
    let k = find_binding(bindings, spool_id);
    if k >= bindings.len() {
        return Err(BlockReason::SpoolNotLoaded { tool });
    }
    let canvas_id: i64 = bindings[k].canvas_id;
    let tray_id: i64 = bindings[k].tray_id;
    // The printer silently prints from tray 0 when given a tray it does not have.
    if canvas_id < 0 || canvas_id > 0xffff_ffff || tray_id < 0 || tray_id > 0xffff_ffff {
        return Err(BlockReason::SpoolNotLoaded { tool });
    }
    let loaded = match &snapshot.canvas {
        Some(info) => match inventory::find_tray(info, canvas_id, tray_id) {
            Some(tray) => tray.has_filament(),
            None => false,
        },
        None => false,
    };
    if !loaded {
        return Err(BlockReason::TrayEmpty { tool, canvas_id, tray_id });
    }
    let needed = needed_so_far(tools, spool_id, i + 1);
    let left: i64 = bindings[k].spool.remaining_mg;
    if needed > left {
        return Err(BlockReason::NotEnoughFilament { tool, needed, left });
    }
    Ok(SlotMapEntry { t: tool, canvas_id: canvas_id as u32, tray_id: tray_id as u32 })
}

fn check_tools(tools: &[JobTool], bindings: &Vec<Binding>, snapshot: &PrinterSnapshot) -> (r: Result<
    Vec<SlotMapEntry>,
    BlockReason,
>)
    requires
        needed_in_all(tools@, tools@.len() as int) <= i64::MAX,
    ensures
        match r {
            Ok(map) => first_blocked(tools@, bindings@, snapshot.canvas, 0) is None && map@
                == slots(tools@, bindings@, tools@.len() as int),
            Err(reason) => first_blocked(tools@, bindings@, snapshot.canvas, 0) == Some(reason),
        },
{
    let mut map: Vec<SlotMapEntry> = Vec::new();
    let mut i: usize = 0;
    while i < tools.len()
        invariant
            i <= tools@.len(),
            needed_in_all(tools@, tools@.len() as int) <= i64::MAX,
            first_blocked(tools@, bindings@, snapshot.canvas, 0) == first_blocked(
                tools@,
                bindings@,
                snapshot.canvas,
                i as int,
            ),
            map@ == slots(tools@, bindings@, i as int),
        decreases tools.len() - i,
    {
        if tools[i].mg > 0 {
            match check_tool(tools, bindings, snapshot, i) {
                Ok(slot) => {
                    map.push(slot);
                },
                Err(reason) => {
                    return Err(reason);
                },
            }
        }
        i += 1;
    }
    Ok(map)
}

fn find_estimated_end(seconds: Option<i64>, margin: u64, now: i64) -> (r: Option<i64>)
    ensures
        r == estimated_end(seconds, margin, now),
{
    match seconds {
        None => None,
        Some(seconds) => {
            assert(-9_223_372_036_854_775_808 * 18_446_744_073_709_551_615 <= seconds * margin
                <= 9_223_372_036_854_775_807 * 18_446_744_073_709_551_615) by (nonlinear_arith)
                requires
                    -9_223_372_036_854_775_808 <= seconds <= 9_223_372_036_854_775_807,
                    0 <= margin <= 18_446_744_073_709_551_615,
            ;
            let run: i128 = num::round_div(seconds as i128 * margin as i128, 1_000_000);
            let end: i128 = now as i128 + run;
            if end >= zone::FIRST_SECOND as i128 && end <= zone::LAST_SECOND as i128 {
                Some(end as i64)
            } else {
                None
            }
        },
    }
}

/// The first reason `job` cannot start now, or the tray for each tool if it can.
pub fn check_start<'a>(job: &Job, tools: &[JobTool], ctx: &StartContext<'a>) -> (r: Result<
    Vec<SlotMapEntry>,
    BlockReason,
>)
    requires
        needed_in_all(tools@, tools@.len() as int) <= i64::MAX,
        forall|i: int| 0 <= i < ctx.rules@.len() ==> (#[trigger] ctx.rules@[i]).on_the_clock(),
    ensures
        match r {
            Ok(map) => ctx.blocked(*job, tools@) is None && map@ == slots(
                tools@,
                ctx.bindings@,
                tools@.len() as int,
            ),
            Err(reason) => ctx.blocked(*job, tools@) == Some(reason),
        },
{
    let registered = match &ctx.snapshot.link {
        LinkState::Registered => true,
        _ => false,
    };
    let state = match &ctx.snapshot.status {
        Some(status) if registered => status.machine_status.state(),
        _ => {
            return Err(BlockReason::PrinterOffline);
        },
    };
    if ctx.other_job_active {
        return Err(BlockReason::AnotherJobActive);
    }
    if state != MachineState::Idle {
        return Err(BlockReason::PrinterBusy);
    }
    // Before the bed: clearing the bed does not help a job that needs another nozzle.
    if let Some(sliced_um) = job.nozzle_um {
        if sliced_um != ctx.nozzle.micrometres() {
            return Err(BlockReason::NozzleMismatch { sliced_um, mounted: ctx.nozzle });
        }
    }
    if !ctx.bed_clear {
        return Err(BlockReason::BedNotClear);
    }
    let map = match check_tools(tools, ctx.bindings, ctx.snapshot) {
        Ok(map) => map,
        Err(reason) => {
            return Err(reason);
        },
    };
    let end = find_estimated_end(job.estimated_seconds, ctx.estimate_margin, ctx.now);
    match schedule::check(ctx.rules.as_slice(), ctx.now, end, ctx.tz) {
        Ok(_) => Ok(map),
        Err(block) => Err(BlockReason::Schedule(block)),
    }
}

/// A job that may start has, for every tool that uses filament, a tray that the printer reports
/// loaded, with a spool that holds enough for all the tools that share it.
pub proof fn a_start_has_loaded_trays(
    job: Job,
    tools: Seq<JobTool>,
    ctx: StartContext<'_>,
    i: int,
)
    requires
        ctx.blocked(job, tools) is None,
        0 <= i < tools.len(),
        tools[i].mg > 0,
    ensures
        tools[i].spool_id is Some,
        ({
            let k = binding_at(ctx.bindings@, tools[i].spool_id->0, 0);
            &&& k < ctx.bindings@.len()
            &&& is_loaded(
                ctx.snapshot.canvas,
                ctx.bindings@[k].canvas_id,
                ctx.bindings@[k].tray_id,
            )
            &&& needed_of(tools, tools[i].spool_id->0, tools.len() as int)
                <= ctx.bindings@[k].spool.remaining_mg
        }),
{
    lemma_none_blocked(tools, ctx.bindings@, ctx.snapshot.canvas, 0, i);
    lemma_enough_left(tools, ctx.bindings@, ctx.snapshot.canvas, i, tools.len() as int);
}

proof fn lemma_enough_left(
    tools: Seq<JobTool>,
    bindings: Seq<Binding>,
    canvas: Option<model::CanvasInfo>,
    i: int,
    n: int,
)
    requires
        0 <= i < n <= tools.len(),
        tools[i].mg > 0,
        tools[i].spool_id is Some,
        first_blocked(tools, bindings, canvas, 0) is None,
    ensures
        needed_of(tools, tools[i].spool_id->0, n) <= bindings[binding_at(
            bindings,
            tools[i].spool_id->0,
            0,
        )].spool.remaining_mg,
    decreases n - i,
{
    lemma_none_blocked(tools, bindings, canvas, 0, n - 1);
    if n > i + 1 {
        lemma_enough_left(tools, bindings, canvas, i, n - 1);
    }
}

proof fn lemma_none_blocked(
    tools: Seq<JobTool>,
    bindings: Seq<Binding>,
    canvas: Option<model::CanvasInfo>,
    from: int,
    i: int,
)
    requires
        0 <= from <= i < tools.len(),
        first_blocked(tools, bindings, canvas, from) is None,
    ensures
        tool_blocked(tools, bindings, canvas, i) is None,
    decreases i - from,
{
    if from < i {
        lemma_none_blocked(tools, bindings, canvas, from + 1, i);
    }
}

/// A job starts only when the printer is connected and idle, no other job is on it, the bed is
/// clear, the mounted nozzle is the one it was sliced for, and the schedule allows it.
pub proof fn nothing_starts_unless_the_printer_is_ready(
    job: Job,
    tools: Seq<JobTool>,
    ctx: StartContext<'_>,
)
    requires
        ctx.blocked(job, tools) is None,
    ensures
        ctx.online(),
        !ctx.other_job_active,
        model::machine_state(ctx.snapshot.status->0.machine_status.status) == MachineState::Idle,
        ctx.bed_clear,
        job.nozzle_um matches Some(um) ==> um == ctx.nozzle.diameter(),
        schedule::blocked_by(
            schedule::ruled_in(ctx.rules@, ctx.now as int, *ctx.tz),
            ctx.now,
            estimated_end(job.estimated_seconds, ctx.estimate_margin, ctx.now),
        ) is None,
{
}

// ---------------------------------------------------------------------------------------------
// Saying why
// ---------------------------------------------------------------------------------------------

pub open spec fn day_name(day: int) -> Seq<char> {
    if day == 0 {
        "Mon"@
    } else if day == 1 {
        "Tue"@
    } else if day == 2 {
        "Wed"@
    } else if day == 3 {
        "Thu"@
    } else if day == 4 {
        "Fri"@
    } else if day == 5 {
        "Sat"@
    } else {
        "Sun"@
    }
}

pub fn day_str(day: u8) -> (r: &'static str)
    ensures
        r@ == day_name(day as int),
{
    if day == 0 {
        "Mon"
    } else if day == 1 {
        "Tue"
    } else if day == 2 {
        "Wed"
    } else if day == 3 {
        "Thu"
    } else if day == 4 {
        "Fri"
    } else if day == 5 {
        "Sat"
    } else {
        "Sun"
    }
}

/// The local day of the week and time of an instant, like `Mon 07:05`.
pub open spec fn clock_text(zone: Zone, unix: int) -> Seq<char> {
    let (hour, minute) = zone.time_at(unix);
    day_name(zone.date_at(unix).monday_offset()) + " "@ + text::padded(hour as nat) + ":"@
        + text::padded(minute as nat)
}

fn push_clock(out: &mut String, zone: &Zone, unix: i64)
    ensures
        final(out)@ == old(out)@ + clock_text(*zone, unix as int),
{
    let (hour, minute) = zone.time(unix);
    out.append(day_str(zone.date(unix).to_monday_zero_offset()));
    out.append(" ");
    text::push_padded(out, hour as u64);
    out.append(":");
    text::push_padded(out, minute as u64);
    assert(out@ =~= old(out)@ + clock_text(*zone, unix as int));
}

pub open spec fn schedule_text(block: ScheduleBlock, zone: Zone) -> Seq<char> {
    match block {
        ScheduleBlock::DenyActive { label, until } => "No printing during “"@ + label@ + "”, until "@
            + clock_text(zone, until as int) + "."@,
        ScheduleBlock::OutsideAllowed { next: Some(next) } =>
            "Outside the print windows; the next one opens "@ + clock_text(zone, next as int)
                + "."@,
        ScheduleBlock::OutsideAllowed { next: None } => "Outside the print windows."@,
        ScheduleBlock::WouldOverrun { label, deadline } => "It would not finish before "@
            + clock_text(zone, deadline as int) + " (“"@ + label@ + "”)."@,
        ScheduleBlock::NoEstimate { label } => "“"@ + label@
            + "” needs a time estimate, and this job has none."@,
    }
}

impl BlockReason {
    pub open spec fn text(self, zone: Zone) -> Seq<char> {
        match self {
            BlockReason::PrinterOffline => "The printer is not connected."@,
            BlockReason::AnotherJobActive => "Another job is printing."@,
            BlockReason::PrinterBusy => "The printer is busy."@,
            BlockReason::BedNotClear => "Nobody has confirmed that the bed is clear."@,
            BlockReason::NozzleMismatch { sliced_um, mounted } => "It was sliced for a "@
                + num::thousandths_text(sliced_um as nat) + " mm nozzle, but a "@ + mounted.name()
                + " mm nozzle is mounted."@,
            BlockReason::SpoolNotChosen { tool } => "No spool is chosen for filament "@
                + text::decimal((tool + 1) as nat) + "."@,
            BlockReason::SpoolNotLoaded { tool } => "The spool for filament "@ + text::decimal(
                (tool + 1) as nat,
            ) + " is not in a tray."@,
            BlockReason::TrayEmpty { tool, canvas_id, tray_id } => "Tray "@ + inventory::tray_name(
                canvas_id as int,
                tray_id as int,
            ) + " for filament "@ + text::decimal((tool + 1) as nat) + " is empty."@,
            BlockReason::NotEnoughFilament { tool, needed, left } => "Filament "@ + text::decimal(
                (tool + 1) as nat,
            ) + " needs "@ + num::rounded_text(needed as int) + " g, but its spool has "@
                + num::rounded_text(left as int) + " g left."@,
            BlockReason::Schedule(block) => schedule_text(block, zone),
        }
    }

    /// Trays have a next number.
    pub open spec fn describable(self) -> bool {
        match self {
            BlockReason::TrayEmpty { tool, tray_id, .. } => tray_id < i64::MAX,
            _ => true,
        }
    }

    pub fn describe(&self, zone: &Zone) -> (r: String)
        requires
            self.describable(),
        ensures
            r@ == self.text(*zone),
    {
        match self {
            BlockReason::PrinterOffline => "The printer is not connected.".to_string(),
            BlockReason::AnotherJobActive => "Another job is printing.".to_string(),
            BlockReason::PrinterBusy => "The printer is busy.".to_string(),
            BlockReason::BedNotClear => "Nobody has confirmed that the bed is clear.".to_string(),
            BlockReason::NozzleMismatch { sliced_um, mounted } => {
                let mut out = "It was sliced for a ".to_string();
                num::push_thousandths(&mut out, *sliced_um);
                out.append(" mm nozzle, but a ");
                out.append(mounted.as_str());
                out.append(" mm nozzle is mounted.");
                out
            },
            BlockReason::SpoolNotChosen { tool } => {
                let mut out = "No spool is chosen for filament ".to_string();
                text::push_decimal(&mut out, *tool as u64 + 1);
                out.append(".");
                out
            },
            BlockReason::SpoolNotLoaded { tool } => {
                let mut out = "The spool for filament ".to_string();
                text::push_decimal(&mut out, *tool as u64 + 1);
                out.append(" is not in a tray.");
                out
            },
            BlockReason::TrayEmpty { tool, canvas_id, tray_id } => {
                let mut out = "Tray ".to_string();
                out.append(inventory::tray_label(*canvas_id, *tray_id).as_str());
                out.append(" for filament ");
                text::push_decimal(&mut out, *tool as u64 + 1);
                out.append(" is empty.");
                out
            },
            BlockReason::NotEnoughFilament { tool, needed, left } => {
                let mut out = "Filament ".to_string();
                text::push_decimal(&mut out, *tool as u64 + 1);
                out.append(" needs ");
                num::push_rounded(&mut out, *needed);
                out.append(" g, but its spool has ");
                num::push_rounded(&mut out, *left);
                out.append(" g left.");
                out
            },
            BlockReason::Schedule(block) => describe_schedule(block, zone),
        }
    }
}

fn describe_schedule(block: &ScheduleBlock, zone: &Zone) -> (r: String)
    ensures
        r@ == schedule_text(*block, *zone),
{
    match block {
        ScheduleBlock::DenyActive { label, until } => {
            let mut out = "No printing during “".to_string();
            out.append(label.as_str());
            out.append("”, until ");
            push_clock(&mut out, zone, *until);
            out.append(".");
            out
        },
        ScheduleBlock::OutsideAllowed { next } => match next {
            Some(next) => {
                let mut out = "Outside the print windows; the next one opens ".to_string();
                push_clock(&mut out, zone, *next);
                out.append(".");
                out
            },
            None => "Outside the print windows.".to_string(),
        },
        ScheduleBlock::WouldOverrun { label, deadline } => {
            let mut out = "It would not finish before ".to_string();
            push_clock(&mut out, zone, *deadline);
            out.append(" (“");
            out.append(label.as_str());
            out.append("”).");
            out
        },
        ScheduleBlock::NoEstimate { label } => {
            let mut out = "“".to_string();
            out.append(label.as_str());
            out.append("” needs a time estimate, and this job has none.");
            out
        },
    }
}

// ---------------------------------------------------------------------------------------------
// Laws
// ---------------------------------------------------------------------------------------------

/// A finished print is charged whole. Any other is charged the printed share, to the nearest
/// milligram: nothing of a print that had not begun, and never more than the whole.
pub proof fn a_print_is_charged_for_what_was_printed(tool: JobTool, outcome: JobState, progress: i64)
    ensures
        ({
            let mg = charge(tool, outcome, progress);
            &&& outcome == JobState::Done ==> mg == tool.mg
            &&& outcome != JobState::Done && 0 <= progress <= 100 ==> -100 <= 2 * (100 * mg
                - tool.mg * progress) <= 100
            &&& outcome != JobState::Done && progress <= 0 ==> mg == 0
            &&& outcome != JobState::Done && progress >= 100 ==> mg == tool.mg
            &&& tool.mg >= 0 ==> 0 <= mg <= tool.mg
        }),
{
    let share = percent(progress);
    let n = tool.mg * share;
    num::rounding_misses_by_half_at_most(n, 100);
    assert(tool.mg >= 0 ==> 0 <= n <= 100 * tool.mg) by (nonlinear_arith)
        requires
            n == tool.mg * share,
            0 <= share <= 100,
    ;
    assert(share == 0 ==> n == 0) by (nonlinear_arith)
        requires
            n == tool.mg * share,
    ;
    assert(share == 100 ==> n == 100 * tool.mg) by (nonlinear_arith)
        requires
            n == tool.mg * share,
    ;
}

/// The further an unfinished print got, the more it is charged.
pub proof fn more_progress_is_charged_no_less(tool: JobTool, outcome: JobState, a: i64, b: i64)
    requires
        a <= b,
        tool.mg >= 0,
    ensures
        charge(tool, outcome, a) <= charge(tool, outcome, b),
{
    let (x, y) = (percent(a), percent(b));
    let (m, n) = (tool.mg * x, tool.mg * y);
    assert(0 <= m <= n) by (nonlinear_arith)
        requires
            tool.mg >= 0,
            0 <= x <= y,
            m == tool.mg * x,
            n == tool.mg * y,
    ;
    num::rounding_misses_by_half_at_most(m, 100);
    num::rounding_misses_by_half_at_most(n, 100);
}

/// Every tool that used filament is charged to its own spool, once; tools without a spool and
/// tools that used nothing are charged to none.
pub proof fn every_tool_is_charged_to_its_spool(
    tools: Seq<JobTool>,
    tool: JobTool,
    outcome: JobState,
    progress: i64,
    spool_id: i64,
)
    ensures
        charges(seq![], outcome, progress).len() == 0,
        charged_to(seq![], spool_id) == 0,
        ({
            let before = charges(tools, outcome, progress);
            let after = charges(tools.push(tool), outcome, progress);
            let mg = charge(tool, outcome, progress);
            let used = mg > 0;
            &&& after.len() == before.len() + if used && tool.spool_id is Some {
                1int
            } else {
                0
            }
            &&& after.take(before.len() as int) == before
            &&& used && tool.spool_id is Some ==> after.last().0 == tool.spool_id->0
                && after.last().1 == mg
            &&& charged_to(after, spool_id) == charged_to(before, spool_id) + if used
                && tool.spool_id == Some(spool_id) {
                mg
            } else {
                0
            }
        }),
{
    assert(tools.push(tool).drop_last() =~= tools);
    a_print_is_charged_for_what_was_printed(tool, outcome, progress);
    let before = charges(tools, outcome, progress);
    let after = charges(tools.push(tool), outcome, progress);
    lemma_charge_size(tool, outcome, progress);
    assert(after.take(before.len() as int) =~= before);
    if after.len() > before.len() {
        assert(after.drop_last() =~= before);
    }
}

proof fn lemma_charge_size(tool: JobTool, outcome: JobState, progress: i64)
    ensures
        charge(tool, outcome, progress) > 0 ==> charge(tool, outcome, progress) <= tool.mg,
{
    a_print_is_charged_for_what_was_printed(tool, outcome, progress);
    if tool.mg < 0 && outcome != JobState::Done {
        let share = percent(progress);
        let n = tool.mg * share;
        assert(n <= 0) by (nonlinear_arith)
            requires
                n == tool.mg * share,
                tool.mg < 0,
                share >= 0,
        ;
        num::rounding_misses_by_half_at_most(n, 100);
    }
}

/// What is charged to a spool comes off what remains of it, to the milligram, and a spool that
/// nothing is charged to keeps what it has.
pub proof fn charges_come_off_their_spool(
    spools: Seq<inventory::Spool>,
    taken: Seq<(i64, i64)>,
    i: int,
)
    requires
        0 <= i < spools.len(),
        forall|a: int, b: int|
            0 <= a < b < spools.len() ==> (#[trigger] spools[a]).id != (#[trigger] spools[b]).id,
        forall|k: int| 0 <= k < taken.len() ==> (#[trigger] taken[k]).1 > 0,
        spools[i].remaining_mg - charged_to(taken, spools[i].id) >= i64::MIN,
    ensures
        deducted(spools, taken).len() == spools.len(),
        deducted(spools, taken)[i] == (inventory::Spool {
            remaining_mg: (spools[i].remaining_mg - charged_to(taken, spools[i].id)) as i64,
            ..spools[i]
        }),
    decreases taken.len(),
{
    lemma_deducted(spools, taken);
    if taken.len() > 0 {
        let front = taken.drop_last();
        assert forall|k: int| 0 <= k < front.len() implies (#[trigger] front[k]).1 > 0 by {
            assert(front[k] == taken[k]);
        }
        assert(taken[taken.len() - 1].1 > 0);
        lemma_charged_to(taken, spools[i].id, front.len() as int);
        assert(taken.take(front.len() as int) =~= front);
        charges_come_off_their_spool(spools, front, i);
        lemma_deducted(spools, front);
        let before = deducted(spools, front);
        let (id, _) = taken.last();
        let at = inventory::spool_at(before, id, 0);
        inventory::lemma_spool_at(before, id, 0);
        if spools[i].id == id {
            assert(before[i].id == id);
            if at < i {
                assert(before[at].id == spools[at].id);
                assert(spools[at].id != spools[i].id);
            }
        } else if at < before.len() {
            assert(before[at].id == spools[at].id);
        }
    }
}

/// Filament of a finished print counts as printed, of any other as estimated, and the entry says
/// what was taken from which spool, for whose job.
pub proof fn charges_are_entered_as_they_were_taken(
    before: Inventory,
    after: Inventory,
    job: Job,
    outcome: JobState,
    taken: Seq<(i64, i64)>,
    now: i64,
    k: int,
)
    requires
        charges_entered(before, after, job, outcome, taken, now),
        0 <= k < taken.len(),
        inventory::spool_at(before.spools@, taken[k].0, 0) < before.spools@.len(),
    ensures
        after.ledger@.len() == before.ledger@.len() + taken.len(),
        ({
            let entry = after.ledger@[before.ledger@.len() + k];
            &&& entry.spool_id == taken[k].0
            &&& entry.mg == taken[k].1
            &&& entry.job_id == Some(job.id)
            &&& entry.user_id == match job.owner {
                Some(owner) => Some(owner.0),
                None => None,
            }
            &&& entry.created_at == now
            &&& outcome == JobState::Done ==> entry.kind == ConsumptionKind::Print
            &&& outcome != JobState::Done ==> entry.kind == ConsumptionKind::Estimate
        }),
        forall|i: int|
            0 <= i < before.ledger@.len() ==> #[trigger] after.ledger@[i] == before.ledger@[i],
{
    inventory::lemma_spool_at(before.spools@, taken[k].0, 0);
    let first = before.ledger@.len() as int;
    assert(is_charge_entry(
        after.ledger@[first + k],
        inventory::next_entry_id(before.ledger@) + k,
        before.spools@[inventory::spool_at(before.spools@, taken[k].0, 0)],
        job,
        kind_of(outcome),
        taken[k].1,
        now,
    ));
    assert forall|i: int| 0 <= i < before.ledger@.len() implies #[trigger] after.ledger@[i]
        == before.ledger@[i] by {
        assert(after.ledger@.take(first)[i] == after.ledger@[i]);
    }
}

proof fn lemma_binding_at(bindings: Seq<Binding>, spool_id: i64, i: int)
    requires
        0 <= i <= bindings.len(),
    ensures
        i <= binding_at(bindings, spool_id, i) <= bindings.len(),
        binding_at(bindings, spool_id, i) < bindings.len() ==> bindings[binding_at(
            bindings,
            spool_id,
            i,
        )].spool.id == spool_id,
        forall|k: int|
            i <= k < binding_at(bindings, spool_id, i) ==> (#[trigger] bindings[k]).spool.id
                != spool_id,
    decreases bindings.len() - i,
{
    if i < bindings.len() && bindings[i].spool.id != spool_id {
        lemma_binding_at(bindings, spool_id, i + 1);
    }
}

/// A spool has to hold what all the tools that print from it need together: a tool that uses
/// filament of the spool adds its weight, any other tool adds nothing.
pub proof fn a_spool_is_needed_for_the_sum_of_its_tools(
    tools: Seq<JobTool>,
    tool: JobTool,
    spool_id: i64,
)
    ensures
        needed_of(seq![], spool_id, 0) == 0,
        ({
            let n = tools.len() as int;
            needed_of(tools.push(tool), spool_id, n + 1) - needed_of(tools, spool_id, n)
                == if tool.spool_id == Some(spool_id) && tool.mg > 0 {
                tool.mg as int
            } else {
                0
            }
        }),
{
    lemma_needed_prefix(tools, tools.push(tool), spool_id, tools.len() as int);
}

proof fn lemma_needed_prefix(a: Seq<JobTool>, b: Seq<JobTool>, spool_id: i64, n: int)
    requires
        0 <= n <= a.len(),
        n <= b.len(),
        forall|k: int| 0 <= k < n ==> #[trigger] a[k] == b[k],
    ensures
        needed_of(a, spool_id, n) == needed_of(b, spool_id, n),
    decreases n,
{
    if n > 0 {
        lemma_needed_prefix(a, b, spool_id, n - 1);
        assert(a[n - 1] == b[n - 1]);
    }
}

proof fn lemma_needed_grows(tools: Seq<JobTool>, spool_id: i64, a: int, b: int)
    requires
        0 <= a <= b <= tools.len(),
    ensures
        needed_of(tools, spool_id, a) <= needed_of(tools, spool_id, b),
    decreases b - a,
{
    if a < b {
        lemma_needed_grows(tools, spool_id, a, b - 1);
    }
}

/// Two tools that print from one spool start only where it holds enough for both.
pub proof fn tools_share_what_their_spool_holds(
    job: Job,
    tools: Seq<JobTool>,
    ctx: StartContext<'_>,
    i: int,
    j: int,
)
    requires
        ctx.blocked(job, tools) is None,
        0 <= i < j < tools.len(),
        tools[i].mg > 0,
        tools[j].mg > 0,
        tools[i].spool_id == tools[j].spool_id,
    ensures
        exists|k: int|
            0 <= k < ctx.bindings@.len() && Some((#[trigger] ctx.bindings@[k]).spool.id)
                == tools[i].spool_id && tools[i].mg + tools[j].mg
                <= ctx.bindings@[k].spool.remaining_mg,
{
    a_start_has_loaded_trays(job, tools, ctx, i);
    let id = tools[i].spool_id->0;
    let k = binding_at(ctx.bindings@, id, 0);
    lemma_binding_at(ctx.bindings@, id, 0);
    lemma_needed_grows(tools, id, 0, i);
    lemma_needed_grows(tools, id, i + 1, j);
    lemma_needed_grows(tools, id, j + 1, tools.len() as int);
    assert(Some(ctx.bindings@[k].spool.id) == tools[i].spool_id);
}

/// A tray counts as loaded exactly where the printer reports a unit and a tray with its numbers,
/// and the first such tray holds filament.
pub proof fn a_tray_is_loaded_where_the_printer_says_so(
    info: model::CanvasInfo,
    canvas_id: i64,
    tray_id: i64,
    u: int,
    v: int,
)
    requires
        0 <= u < info.canvas_list@.len(),
        0 <= v < info.canvas_list@[u].tray_list@.len(),
        info.canvas_list@[u].canvas_id == canvas_id,
        info.canvas_list@[u].tray_list@[v].tray_id == tray_id,
        forall|w: int|
            0 <= w < v ==> (#[trigger] info.canvas_list@[u].tray_list@[w]).tray_id != tray_id,
        forall|x: int, w: int|
            0 <= x < u && (#[trigger] info.canvas_list@[x]).canvas_id == canvas_id && 0 <= w
                < info.canvas_list@[x].tray_list@.len() ==> (
            #[trigger] info.canvas_list@[x].tray_list@[w]).tray_id != tray_id,
    ensures
        is_loaded(Some(info), canvas_id, tray_id) <==> info.canvas_list@[u].tray_list@[v].status == 1
            || info.canvas_list@[u].tray_list@[v].status == 2,
        !is_loaded(None, canvas_id, tray_id),
{
    lemma_tray_at(info.canvas_list@, canvas_id, tray_id, 0, u, v);
}

proof fn lemma_tray_at(
    units: Seq<model::Canvas>,
    canvas_id: i64,
    tray_id: i64,
    i: int,
    u: int,
    v: int,
)
    requires
        0 <= i <= u < units.len(),
        0 <= v < units[u].tray_list@.len(),
        units[u].canvas_id == canvas_id,
        units[u].tray_list@[v].tray_id == tray_id,
        forall|w: int| 0 <= w < v ==> (#[trigger] units[u].tray_list@[w]).tray_id != tray_id,
        forall|x: int, w: int|
            i <= x < u && (#[trigger] units[x]).canvas_id == canvas_id && 0 <= w
                < units[x].tray_list@.len() ==> (#[trigger] units[x].tray_list@[w]).tray_id
                != tray_id,
    ensures
        inventory::tray_at(units, canvas_id, tray_id, i) == Some(units[u].tray_list@[v]),
    decreases u - i,
{
    if i == u {
        lemma_tray_in(units[u].tray_list@, tray_id, 0, v);
    } else {
        if units[i].canvas_id == canvas_id {
            lemma_no_tray_in(units[i].tray_list@, tray_id, 0);
        }
        lemma_tray_at(units, canvas_id, tray_id, i + 1, u, v);
    }
}

proof fn lemma_tray_in(trays: Seq<model::Tray>, tray_id: i64, i: int, v: int)
    requires
        0 <= i <= v < trays.len(),
        trays[v].tray_id == tray_id,
        forall|w: int| i <= w < v ==> (#[trigger] trays[w]).tray_id != tray_id,
    ensures
        inventory::tray_in(trays, tray_id, i) == Some(trays[v]),
    decreases v - i,
{
    if i < v {
        lemma_tray_in(trays, tray_id, i + 1, v);
    }
}

proof fn lemma_no_tray_in(trays: Seq<model::Tray>, tray_id: i64, i: int)
    requires
        0 <= i <= trays.len(),
        forall|w: int| i <= w < trays.len() ==> (#[trigger] trays[w]).tray_id != tray_id,
    ensures
        inventory::tray_in(trays, tray_id, i) is None,
    decreases trays.len() - i,
{
    if i < trays.len() {
        lemma_no_tray_in(trays, tray_id, i + 1);
    }
}

/// A tray of which the printer reports nothing is not loaded.
pub proof fn a_tray_that_is_not_reported_is_not_loaded(
    info: model::CanvasInfo,
    canvas_id: i64,
    tray_id: i64,
)
    requires
        forall|x: int, w: int|
            0 <= x < info.canvas_list@.len() && (#[trigger] info.canvas_list@[x]).canvas_id
                == canvas_id && 0 <= w < info.canvas_list@[x].tray_list@.len() ==> (
            #[trigger] info.canvas_list@[x].tray_list@[w]).tray_id != tray_id,
    ensures
        !is_loaded(Some(info), canvas_id, tray_id),
{
    lemma_no_tray_at(info.canvas_list@, canvas_id, tray_id, 0);
}

proof fn lemma_no_tray_at(units: Seq<model::Canvas>, canvas_id: i64, tray_id: i64, i: int)
    requires
        0 <= i <= units.len(),
        forall|x: int, w: int|
            i <= x < units.len() && (#[trigger] units[x]).canvas_id == canvas_id && 0 <= w
                < units[x].tray_list@.len() ==> (#[trigger] units[x].tray_list@[w]).tray_id
                != tray_id,
    ensures
        inventory::tray_at(units, canvas_id, tray_id, i) is None,
    decreases units.len() - i,
{
    if i < units.len() {
        if units[i].canvas_id == canvas_id {
            lemma_no_tray_in(units[i].tray_list@, tray_id, 0);
        }
        lemma_no_tray_at(units, canvas_id, tray_id, i + 1);
    }
}

/// The filament for a tool is in a tray: its spool is bound to one that the printer can be told,
/// reports and calls loaded, and holds enough for every tool that prints from it.
pub open spec fn has_its_filament(tools: Seq<JobTool>, ctx: StartContext<'_>, i: int) -> bool {
    exists|k: int|
        {
            &&& 0 <= k < ctx.bindings@.len()
            &&& tools[i].spool_id == Some((#[trigger] ctx.bindings@[k]).spool.id)
            &&& forall|m: int|
                0 <= m < k ==> (#[trigger] ctx.bindings@[m]).spool.id != ctx.bindings@[k].spool.id
            &&& 0 <= ctx.bindings@[k].canvas_id <= 0xffff_ffff
            &&& 0 <= ctx.bindings@[k].tray_id <= 0xffff_ffff
            &&& is_loaded(
                ctx.snapshot.canvas,
                ctx.bindings@[k].canvas_id,
                ctx.bindings@[k].tray_id,
            )
            &&& needed_of(tools, ctx.bindings@[k].spool.id, tools.len() as int)
                <= ctx.bindings@[k].spool.remaining_mg
        }
}

proof fn lemma_has_its_filament(tools: Seq<JobTool>, ctx: StartContext<'_>, i: int, k: int)
    requires
        0 <= i < tools.len(),
        has_its_filament(tools, ctx, i),
        k == binding_at(ctx.bindings@, tools[i].spool_id->0, 0),
    ensures
        tool_blocked(tools, ctx.bindings@, ctx.snapshot.canvas, i) is None,
{
    let id = tools[i].spool_id->0;
    lemma_binding_at(ctx.bindings@, id, 0);
    lemma_needed_grows(tools, id, i + 1, tools.len() as int);
}

proof fn lemma_all_have_filament(tools: Seq<JobTool>, ctx: StartContext<'_>, from: int)
    requires
        0 <= from <= tools.len(),
        forall|i: int|
            from <= i < tools.len() && (#[trigger] tools[i]).mg > 0 ==> has_its_filament(
                tools,
                ctx,
                i,
            ),
    ensures
        first_blocked(tools, ctx.bindings@, ctx.snapshot.canvas, from) is None,
    decreases tools.len() - from,
{
    if from < tools.len() {
        if tools[from].mg > 0 {
            lemma_has_its_filament(
                tools,
                ctx,
                from,
                binding_at(ctx.bindings@, tools[from].spool_id->0, 0),
            );
        }
        lemma_all_have_filament(tools, ctx, from + 1);
    }
}

/// A job can start exactly when the printer is connected and idle, no other job is on it, the bed
/// is clear, the job was sliced for the mounted nozzle (or for none that it names), every tool
/// that uses filament has it in a tray, and the print windows allow it.
pub proof fn a_job_can_start_exactly_when_all_is_ready(
    job: Job,
    tools: Seq<JobTool>,
    ctx: StartContext<'_>,
)
    ensures
        ctx.blocked(job, tools) is None <==> {
            &&& ctx.snapshot.link is Registered
            &&& ctx.snapshot.status is Some
            &&& ctx.snapshot.status->0.machine_status.status == 1
            &&& !ctx.other_job_active
            &&& ctx.bed_clear
            &&& job.nozzle_um is None || job.nozzle_um->0 == ctx.nozzle.diameter()
            &&& forall|i: int|
                0 <= i < tools.len() && (#[trigger] tools[i]).mg > 0 ==> has_its_filament(
                    tools,
                    ctx,
                    i,
                )
            &&& schedule::blocked_by(
                schedule::ruled_in(ctx.rules@, ctx.now as int, *ctx.tz),
                ctx.now,
                estimated_end(job.estimated_seconds, ctx.estimate_margin, ctx.now),
            ) is None
        },
{
    if ctx.blocked(job, tools) is None {
        assert forall|i: int| 0 <= i < tools.len() && (#[trigger] tools[i]).mg > 0 implies
            has_its_filament(tools, ctx, i) by {
            a_start_has_loaded_trays(job, tools, ctx, i);
            lemma_none_blocked(tools, ctx.bindings@, ctx.snapshot.canvas, 0, i);
            let id = tools[i].spool_id->0;
            let k = binding_at(ctx.bindings@, id, 0);
            lemma_binding_at(ctx.bindings@, id, 0);
            assert(tools[i].spool_id == Some(ctx.bindings@[k].spool.id));
        }
    }
    if forall|i: int|
        0 <= i < tools.len() && (#[trigger] tools[i]).mg > 0 ==> has_its_filament(tools, ctx, i) {
        lemma_all_have_filament(tools, ctx, 0);
    }
}

/// What keeps a job from starting is said as it is: of the printer and the bed before anything
/// else, and of the nozzle before the bed, which clearing would not help.
pub proof fn reasons_are_the_first_that_hold(job: Job, tools: Seq<JobTool>, ctx: StartContext<'_>)
    ensures
        ({
            let reason = ctx.blocked(job, tools);
            let online = ctx.snapshot.link is Registered && ctx.snapshot.status is Some;
            let idle = ctx.snapshot.status->0.machine_status.status == 1;
            let fits = job.nozzle_um is None || job.nozzle_um->0 == ctx.nozzle.diameter();
            let free = online && !ctx.other_job_active && idle;
            &&& reason == Some(BlockReason::PrinterOffline) <==> !online
            &&& reason == Some(BlockReason::AnotherJobActive) <==> online && ctx.other_job_active
            &&& reason == Some(BlockReason::PrinterBusy) <==> online && !ctx.other_job_active
                && !idle
            &&& (reason is Some && reason->0 is NozzleMismatch) <==> free && !fits
            &&& free && !fits ==> reason == Some(
                BlockReason::NozzleMismatch { sliced_um: job.nozzle_um->0, mounted: ctx.nozzle },
            )
            &&& reason == Some(BlockReason::BedNotClear) <==> free && fits && !ctx.bed_clear
        }),
{
    lemma_tools_say_of_tools(tools, ctx.bindings@, ctx.snapshot.canvas, 0);
}

proof fn lemma_tools_say_of_tools(
    tools: Seq<JobTool>,
    bindings: Seq<Binding>,
    canvas: Option<model::CanvasInfo>,
    i: int,
)
    requires
        0 <= i <= tools.len(),
    ensures
        first_blocked(tools, bindings, canvas, i) matches Some(reason) ==> reason is SpoolNotChosen
            || reason is SpoolNotLoaded || reason is TrayEmpty || reason is NotEnoughFilament,
    decreases tools.len() - i,
{
    if i < tools.len() && tool_blocked(tools, bindings, canvas, i) is None {
        lemma_tools_say_of_tools(tools, bindings, canvas, i + 1);
    }
}

/// What is said of a tool is true of it: no spool was chosen for it, the spool is in no tray, the
/// tray is empty, or the spool does not hold what is needed.
pub proof fn reasons_about_tools_are_true(tools: Seq<JobTool>, ctx: StartContext<'_>, i: int)
    requires
        0 <= i < tools.len(),
    ensures
        match tool_blocked(tools, ctx.bindings@, ctx.snapshot.canvas, i) {
            None => true,
            Some(BlockReason::SpoolNotChosen { tool }) => tool == tools[i].tool_index
                && tools[i].mg > 0 && tools[i].spool_id is None,
            Some(BlockReason::SpoolNotLoaded { tool }) => {
                &&& tool == tools[i].tool_index
                &&& tools[i].mg > 0
                &&& tools[i].spool_id is Some
                &&& (forall|k: int|
                    0 <= k < ctx.bindings@.len() ==> Some((#[trigger] ctx.bindings@[k]).spool.id)
                        != tools[i].spool_id) || exists|k: int|
                    0 <= k < ctx.bindings@.len() && Some((#[trigger] ctx.bindings@[k]).spool.id)
                        == tools[i].spool_id && !(0 <= ctx.bindings@[k].canvas_id <= 0xffff_ffff
                        && 0 <= ctx.bindings@[k].tray_id <= 0xffff_ffff)
            },
            Some(BlockReason::TrayEmpty { tool, canvas_id, tray_id }) => {
                &&& tool == tools[i].tool_index
                &&& tools[i].mg > 0
                &&& !is_loaded(ctx.snapshot.canvas, canvas_id, tray_id)
                &&& exists|k: int|
                    0 <= k < ctx.bindings@.len() && Some((#[trigger] ctx.bindings@[k]).spool.id)
                        == tools[i].spool_id && ctx.bindings@[k].canvas_id == canvas_id
                        && ctx.bindings@[k].tray_id == tray_id
            },
            Some(BlockReason::NotEnoughFilament { tool, needed, left }) => {
                &&& tool == tools[i].tool_index
                &&& tools[i].mg > 0
                &&& needed_in_all(tools, tools.len() as int) <= i64::MAX ==> left < needed
                    && tools[i].mg <= needed
                &&& exists|k: int|
                    0 <= k < ctx.bindings@.len() && Some((#[trigger] ctx.bindings@[k]).spool.id)
                        == tools[i].spool_id && ctx.bindings@[k].spool.remaining_mg == left
            },
            _ => false,
        },
{
    if tools[i].spool_id is Some {
        let id = tools[i].spool_id->0;
        lemma_binding_at(ctx.bindings@, id, 0);
        let k = binding_at(ctx.bindings@, id, 0);
        if k < ctx.bindings@.len() {
            assert(Some(ctx.bindings@[k].spool.id) == tools[i].spool_id);
        }
        lemma_needed(tools, id, i + 1);
        lemma_needed_below(tools, id, i);
    }
}

/// Every tool that uses filament prints from the tray that its spool is in, and no other tool is
/// given a tray.
pub proof fn every_tool_gets_the_tray_of_its_spool(
    tools: Seq<JobTool>,
    bindings: Seq<Binding>,
    tool: JobTool,
)
    ensures
        slots(seq![], bindings, 0).len() == 0,
        ({
            let n = tools.len() as int;
            let before = slots(tools, bindings, n);
            let after = slots(tools.push(tool), bindings, n + 1);
            &&& tool.mg <= 0 ==> after == before
            &&& tool.mg > 0 ==> after.len() == before.len() + 1 && after.drop_last() == before
                && after.last().t == tool.tool_index
            &&& forall|k: int|
                tool.mg > 0 && 0 <= k < bindings.len() && tool.spool_id == Some(
                    (#[trigger] bindings[k]).spool.id,
                ) && (forall|m: int|
                    0 <= m < k ==> (#[trigger] bindings[m]).spool.id != bindings[k].spool.id)
                    && fits_u32(bindings[k].canvas_id) && fits_u32(bindings[k].tray_id) ==> {
                    &&& after.last().canvas_id == bindings[k].canvas_id
                    &&& after.last().tray_id == bindings[k].tray_id
                }
        }),
{
    let n = tools.len() as int;
    lemma_slots_prefix(tools, tools.push(tool), bindings, n);
    let before = slots(tools, bindings, n);
    let after = slots(tools.push(tool), bindings, n + 1);
    if tool.mg > 0 {
        assert(after.drop_last() =~= before);
        if tool.spool_id is Some {
            lemma_binding_at(bindings, tool.spool_id->0, 0);
        }
    }
}

proof fn lemma_slots_prefix(a: Seq<JobTool>, b: Seq<JobTool>, bindings: Seq<Binding>, n: int)
    requires
        0 <= n <= a.len(),
        n <= b.len(),
        forall|k: int| 0 <= k < n ==> #[trigger] a[k] == b[k],
    ensures
        slots(a, bindings, n) == slots(b, bindings, n),
    decreases n,
{
    if n > 0 {
        lemma_slots_prefix(a, b, bindings, n - 1);
        assert(a[n - 1] == b[n - 1]);
    }
}

/// A job ends its estimate, stretched by the margin, after now: to the nearest second, and not at
/// all where it has no estimate or the calendar does not reach that far.
pub proof fn a_job_ends_after_its_stretched_estimate(seconds: Option<i64>, margin: u64, now: i64)
    ensures
        seconds is None ==> estimated_end(seconds, margin, now) is None,
        estimated_end(seconds, margin, now) matches Some(end) ==> {
            &&& seconds is Some
            &&& -1_000_000 <= 2 * (1_000_000 * (end - now) - seconds->0 * margin) <= 1_000_000
            &&& -377_705_023_201 <= end <= 253_402_207_200
        },
        seconds matches Some(s) ==> s >= 0 && 2 * (s * margin) + 1_000_000 <= 2_000_000 * (
        253_402_207_200 - now) && now >= -377_705_023_201 ==> estimated_end(seconds, margin, now)
            is Some,
{
    if let Some(s) = seconds {
        let n = s * margin;
        num::rounding_misses_by_half_at_most(n, 1_000_000);
        assert(s >= 0 ==> n >= 0) by (nonlinear_arith)
            requires
                n == s * margin,
                margin >= 0,
        ;
    }
}

/// The steps there are: a model is sliced, confirmed, queued, sent, printed and done; it can fail
/// while it is sliced, sent or printed, be cancelled before it is sent and while it prints, go
/// back to the queue when sending fails, and be queued again after it failed.
pub proof fn jobs_take_these_steps(from: JobState, to: JobState)
    ensures
        from.leads_to(to) <==> {
            ||| from == JobState::Slicing && to == JobState::AwaitingConfirm
            ||| from == JobState::AwaitingConfirm && to == JobState::Queued
            ||| from == JobState::Queued && to == JobState::Uploading
            ||| from == JobState::Uploading && to == JobState::Printing
            ||| from == JobState::Printing && to == JobState::Done
            ||| (from == JobState::Slicing || from == JobState::Uploading || from
                == JobState::Printing) && to == JobState::Failed
            ||| (from == JobState::Slicing || from == JobState::AwaitingConfirm || from
                == JobState::Queued || from == JobState::Printing) && to == JobState::Cancelled
            ||| (from == JobState::Uploading || from == JobState::Failed) && to == JobState::Queued
        },
        from.ended() <==> from == JobState::Done || from == JobState::Failed || from
            == JobState::Cancelled,
{
}

/// A step changes a job's state, says what went wrong where something did, notes when printing
/// began and when the job ended, and sends it to the back of the queue unless only sending it had
/// failed. Nothing else of the job changes.
pub proof fn a_step_changes_only_this(
    job: Job,
    to: JobState,
    error: Option<String>,
    back: int,
    now: i64,
)
    requires
        0 <= back <= i64::MAX,
    ensures
        ({
            let after = stepped(job, to, error, back, now);
            &&& after.state == to
            &&& error matches Some(said) ==> after.error == said
            &&& error is None ==> after.error == job.error
            &&& to == JobState::Printing ==> after.started_at == Some(now)
            &&& to != JobState::Printing ==> after.started_at == job.started_at
            &&& to == JobState::Done || to == JobState::Failed || to == JobState::Cancelled
                ==> after.finished_at == Some(now)
            &&& !(to == JobState::Done || to == JobState::Failed || to == JobState::Cancelled)
                ==> after.finished_at == job.finished_at
            &&& to == JobState::Queued && job.state != JobState::Uploading ==> after.position
                == back
            &&& !(to == JobState::Queued && job.state != JobState::Uploading) ==> after.position
                == job.position
            &&& after.id == job.id && after.owner == job.owner && after.name == job.name
            &&& after.source == job.source && after.progress == job.progress
            &&& after.estimated_seconds == job.estimated_seconds && after.nozzle_um
                == job.nozzle_um && after.printer_task_uuid == job.printer_task_uuid
            &&& after.created_at == job.created_at
        }),
{
}

/// The jobs in a state are all listed and no others, by their place in the queue.
pub proof fn the_queue_is_listed_in_order(jobs: Seq<Job>, state: JobState, job: Job)
    ensures
        ({
            let listed = order::sorted(jobs.filter(is_in(state)), queue_order());
            &&& listed.contains(job) <==> jobs.contains(job) && job.state == state
            &&& forall|i: int, j: int|
                0 <= i < j < listed.len() ==> (#[trigger] listed[i]).position < (
                #[trigger] listed[j]).position || listed[i].position == listed[j].position
                    && listed[i].id <= listed[j].id
        }),
{
    lists::filtering_keeps_what_is_picked(jobs, is_in(state), job);
    order::sorting_holds_the_same_items(jobs.filter(is_in(state)), queue_order(), job);
    order::sorting_sorts(jobs.filter(is_in(state)), queue_order());
    let listed = order::sorted(jobs.filter(is_in(state)), queue_order());
    assert forall|i: int, j: int| 0 <= i < j < listed.len() implies (#[trigger] listed[i]).position
        < (#[trigger] listed[j]).position || listed[i].position == listed[j].position
        && listed[i].id <= listed[j].id by {
        assert(queue_order()(listed[i], listed[j]));
    }
}

/// Moving a job exchanges its place with that of the queued job right before or behind it: no
/// other queued job stood between them, and no other job changes. A job that is not queued, or has
/// none on that side, stays.
pub proof fn a_move_passes_one_job(jobs: Seq<Job>, i: int, earlier: bool)
    requires
        0 <= i < jobs.len(),
        forall|k: int| 0 <= k < i ==> (#[trigger] jobs[k]).id != jobs[i].id,
    ensures
        match moved(jobs, jobs[i].id, earlier) {
            Some(after) => jobs[i].state == JobState::Queued && exists|j: int|
                {
                    &&& 0 <= j < jobs.len()
                    &&& (#[trigger] jobs[j]).state == JobState::Queued
                    &&& if earlier {
                        jobs[j].position < jobs[i].position
                    } else {
                        jobs[i].position < jobs[j].position
                    }
                    &&& nothing_between(jobs, i, j)
                    &&& after == jobs.update(
                        i,
                        Job { position: jobs[j].position, ..jobs[i] },
                    ).update(j, Job { position: jobs[i].position, ..jobs[j] })
                },
            None => jobs[i].state != JobState::Queued || forall|k: int|
                0 <= k < jobs.len() && (#[trigger] jobs[k]).state == JobState::Queued ==> if earlier {
                    jobs[k].position >= jobs[i].position
                } else {
                    jobs[k].position <= jobs[i].position
                },
        },
{
    let n = jobs.len() as int;
    lemma_job_is(jobs, jobs[i].id, 0, i);
    lemma_neighbour(jobs, jobs[i].position, earlier, n);
    let j = neighbour(jobs, jobs[i].position, earlier, n);
    if moved(jobs, jobs[i].id, earlier) is Some {
        assert forall|k: int|
            0 <= k < jobs.len() && (#[trigger] jobs[k]).state == JobState::Queued implies !(
        jobs[j].position < jobs[k].position < jobs[i].position) && !(jobs[i].position
            < jobs[k].position < jobs[j].position) by {}
        assert(nothing_between(jobs, i, j));
        assert(jobs[j].state == JobState::Queued);
    }
}

/// No queued job has a place between those of two jobs.
pub open spec fn nothing_between(jobs: Seq<Job>, i: int, j: int) -> bool {
    forall|k: int|
        0 <= k < jobs.len() && (#[trigger] jobs[k]).state == JobState::Queued ==> !(jobs[j].position
            < jobs[k].position < jobs[i].position) && !(jobs[i].position < jobs[k].position
            < jobs[j].position)
}

/// New jobs go behind all others in the queue, under an id that no job has.
pub proof fn new_jobs_go_to_the_back(jobs: Seq<Job>, i: int)
    requires
        0 <= i < jobs.len(),
    ensures
        next_job_id(jobs) > jobs[i].id,
        last_position(jobs) >= jobs[i].position,
    decreases jobs.len(),
{
    if i < jobs.len() - 1 {
        new_jobs_go_to_the_back(jobs.drop_last(), i);
    }
}

/// A model has to be sliced first, G-code only to be confirmed; neither has printed anything.
pub proof fn a_new_job_is_prepared(id: i64, position: i64, job: NewJob, error: String, now: i64)
    ensures
        ({
            let new = new_job(id, position, job, error, now);
            &&& job.source == Source::Stl ==> new.state == JobState::Slicing
            &&& job.source == Source::Gcode ==> new.state == JobState::AwaitingConfirm
            &&& new.id == id && new.position == position && new.created_at == now
            &&& new.owner == Some(job.owner) && new.name == job.name && new.source == job.source
            &&& new.progress == 0 && new.started_at is None && new.finished_at is None
            &&& new.printer_task_uuid is None && new.estimated_seconds is None && new.nozzle_um
                is None
            &&& new.scale_percent == job.scale_percent && new.supports == job.supports
        }),
{
}

/// Jobs are managed by their owners and by admins, and by nobody else. Who manages a job cancels
/// it while it is neither being sent nor over; who may control any print stops others' prints and
/// nothing more; and a failed job is queued again by who manages it, with its G-code there and a
/// spool for each of its tools.
pub proof fn jobs_obey_their_owners_and_admins(
    job: Job,
    user: User,
    control_any: bool,
    tools: Seq<JobTool>,
    has_gcode: bool,
)
    ensures
        ({
            let owner = match job.owner {
                Some((id, _)) => id == user.id,
                None => false,
            };
            let manages = user.role == Role::Admin || owner;
            let under_way = job.state == JobState::Slicing || job.state == JobState::AwaitingConfirm
                || job.state == JobState::Queued || job.state == JobState::Printing;
            &&& job.is_managed_by(user) <==> manages
            &&& job.is_cancellable_by(user, control_any) <==> under_way && (manages || control_any
                && job.state == JobState::Printing)
            &&& job.is_retryable_by(user, tools, has_gcode) <==> manages && job.state
                == JobState::Failed && has_gcode && tools.len() > 0 && forall|i: int|
                0 <= i < tools.len() ==> (#[trigger] tools[i]).spool_id is Some
        }),
{
}

/// Where several spools or trays are named for a tool, the last counts; where none is, it keeps
/// what it has.
pub proof fn the_last_choice_counts(
    choices: Seq<(u32, i64)>,
    choice: (u32, i64),
    slots: Seq<SlotMapEntry>,
    slot: SlotMapEntry,
    tool: u32,
    spool_id: Option<i64>,
)
    ensures
        chosen_spool(seq![], tool, spool_id) == spool_id,
        chosen_spool(choices.push(choice), tool, spool_id) == if choice.0 == tool {
            Some(choice.1)
        } else {
            chosen_spool(choices, tool, spool_id)
        },
        mapped_tray(seq![], tool) is None,
        mapped_tray(slots.push(slot), tool) == if slot.t == tool {
            Some((slot.canvas_id as i64, slot.tray_id as i64))
        } else {
            mapped_tray(slots, tool)
        },
{
    assert(choices.push(choice).drop_last() =~= choices);
    assert(slots.push(slot).drop_last() =~= slots);
}

/// Choosing spools or trays for a job touches its own tools only, and of those nothing but the
/// spool or the tray.
pub proof fn choices_stay_with_their_job(
    row: ToolRow,
    job_id: i64,
    choices: Seq<(u32, i64)>,
    slots: Seq<SlotMapEntry>,
)
    ensures
        row.job_id != job_id ==> with_choice(row, job_id, choices) == row && with_tray(
            row,
            job_id,
            slots,
        ) == row,
        row.job_id == job_id ==> {
            let chosen = with_choice(row, job_id, choices);
            let placed = with_tray(row, job_id, slots);
            &&& chosen.job_id == job_id && placed.job_id == job_id
            &&& chosen.tool == (JobTool {
                spool_id: chosen_spool(choices, row.tool.tool_index, row.tool.spool_id),
                ..row.tool
            })
            &&& mapped_tray(slots, row.tool.tool_index) matches Some((canvas_id, tray_id))
                ==> placed.tool.canvas_id == Some(canvas_id) && placed.tool.tray_id == Some(tray_id)
            &&& mapped_tray(slots, row.tool.tool_index) is None ==> placed == row
            &&& placed.tool.spool_id == row.tool.spool_id && placed.tool.mg == row.tool.mg
                && placed.tool.tool_index == row.tool.tool_index
        },
{
}

/// The list of jobs begins with what is on the printer, then what is queued, then what is being
/// prepared, each by its place; what is over comes last, the latest first.
pub proof fn jobs_are_listed_by_what_comes_next(a: Job, b: Job)
    ensures
        ({
            let on_printer = |s: JobState| s == JobState::Printing || s == JobState::Uploading;
            let prepared = |s: JobState| s == JobState::Slicing || s == JobState::AwaitingConfirm;
            let over = |s: JobState|
                s == JobState::Done || s == JobState::Failed || s == JobState::Cancelled;
            let queued = |s: JobState| s == JobState::Queued;
            let le = list_order();
            &&& on_printer(a.state) && !on_printer(b.state) ==> le(a, b) && !le(b, a)
            &&& queued(a.state) && (prepared(b.state) || over(b.state)) ==> le(a, b) && !le(b, a)
            &&& prepared(a.state) && over(b.state) ==> le(a, b) && !le(b, a)
            &&& (on_printer(a.state) && on_printer(b.state) || queued(a.state) && queued(b.state)
                || prepared(a.state) && prepared(b.state)) && a.position < b.position ==> le(a, b)
                && !le(b, a)
            &&& over(a.state) && over(b.state) && a.finished_at is Some && b.finished_at is Some
                && a.finished_at->0 > b.finished_at->0 ==> le(a, b) && !le(b, a)
        }),
{
}

/// Two jobs never have the same file on the printer, whatever they are called.
pub proof fn every_job_has_its_own_file(a: Job, b: Job)
    requires
        a.id >= 0,
        b.id >= 0,
        a.file_on_printer() == b.file_on_printer(),
    ensures
        a.id == b.id,
{
    let (x, y) = (text::decimal(a.id as nat), text::decimal(b.id as nat));
    text::lemma_decimal(a.id as nat);
    text::lemma_decimal(b.id as nat);
    reveal_strlit("-");
    reveal_strlit(".gcode");
    let s = a.file_on_printer();
    let n = s.len() as int;
    assert(s[n - 6 - x.len() - 1] == '-');
    assert(s[n - 6 - y.len() - 1] == '-') by {
        let t = b.file_on_printer();
        assert(t[n - 6 - y.len() - 1] == '-');
    }
    assert(s.subrange(n - 6 - x.len(), n - 6) =~= x);
    assert(s.subrange(n - 6 - y.len(), n - 6) =~= y) by {
        let t = b.file_on_printer();
        assert(t.subrange(n - 6 - y.len(), n - 6) =~= y);
    }
    if x.len() < y.len() {
        let k = y.len() - x.len() - 1;
        assert(y[k] == s[n - 6 - y.len() + k]);
        assert(text::is_digit(y[k]));
    } else if y.len() < x.len() {
        let k = x.len() - y.len() - 1;
        assert(x[k] == s[n - 6 - x.len() + k]);
        assert(text::is_digit(x[k]));
    }
}

/// The running print is the one with the lowest number among those that print, and there is none
/// exactly where no job prints.
pub proof fn the_oldest_print_is_the_running_one(jobs: Seq<Job>, n: int, k: int)
    requires
        0 <= k < n <= jobs.len(),
    ensures
        ({
            let first = first_printing(jobs, n);
            &&& -1 <= first < n
            &&& first >= 0 ==> jobs[first].state == JobState::Printing
            &&& jobs[k].state == JobState::Printing ==> first >= 0 && jobs[first].id <= jobs[k].id
        }),
    decreases n,
{
    if n > 1 {
        the_oldest_print_is_the_running_one(jobs, n - 1, if k < n - 1 { k } else { 0 });
    } else {
        assert(first_printing(jobs, 0) == -1);
    }
}

/// The history holds jobs that are over, those that ended last, the latest first. One is left out
/// only where as many as are asked for ended no earlier.
pub proof fn the_history_holds_what_ended_last(jobs: Seq<Job>, count: int, job: Job)
    requires
        0 <= count,
    ensures
        ({
            let listed = recently_finished(jobs, count);
            &&& listed.len() <= count
            &&& listed.contains(job) ==> jobs.contains(job) && (job.state == JobState::Done
                || job.state == JobState::Failed || job.state == JobState::Cancelled)
            &&& jobs.contains(job) && (job.state == JobState::Done || job.state == JobState::Failed
                || job.state == JobState::Cancelled) && !listed.contains(job) ==> listed.len()
                == count && forall|i: int|
                0 <= i < count ==> ended_no_later(job, #[trigger] listed[i])
            &&& forall|i: int, j: int|
                0 <= i < j < listed.len() ==> ended_no_later(
                    #[trigger] listed[j],
                    #[trigger] listed[i],
                )
        }),
{
    let picked = jobs.filter(has_ended());
    let all = order::sorted(picked, recent_first());
    lists::filtering_keeps_what_is_picked(jobs, has_ended(), job);
    order::sorting_holds_the_same_items(picked, recent_first(), job);
    order::sorting_sorts(picked, recent_first());
    let listed = recently_finished(jobs, count);
    if listed.contains(job) {
        let i = choose|i: int| 0 <= i < listed.len() && listed[i] == job;
        assert(all[i] == job);
        assert(all.contains(job));
    }
    assert forall|i: int, j: int| 0 <= i < j < listed.len() implies ended_no_later(
        #[trigger] listed[j],
        #[trigger] listed[i],
    ) by {
        assert(recent_first()(all[i], all[j]));
    }
    if all.contains(job) && !listed.contains(job) {
        let k = choose|k: int| 0 <= k < all.len() && all[k] == job;
        if count >= all.len() {
            assert(listed[k] == job);
        } else if k < count {
            assert(listed[k] == job);
        }
        assert forall|i: int| 0 <= i < count implies ended_no_later(job, #[trigger] listed[i]) by {
            assert(recent_first()(all[i], all[k]));
        }
    }
}

/// Of two jobs that are over, the first ended at the same time as the other or earlier; one of
/// which the time is not known counts as the earliest.
pub open spec fn ended_no_later(a: Job, b: Job) -> bool {
    match (a.finished_at, b.finished_at) {
        (Some(x), Some(y)) => x <= y,
        (None, _) => true,
        (Some(_), None) => false,
    }
}

/// The tools of a job are those that were written down for it, by their numbers.
pub proof fn tools_belong_to_their_job(rows: Seq<ToolRow>, job_id: i64, row: ToolRow)
    ensures
        rows.contains(row) && row.job_id == job_id ==> tools_of(rows, job_id).contains(row.tool),
        forall|tool: JobTool| #[trigger]
            tools_of(rows, job_id).contains(tool) ==> exists|i: int|
                0 <= i < rows.len() && (#[trigger] rows[i]).job_id == job_id && rows[i].tool == tool,
        forall|i: int, j: int|
            0 <= i < j < tools_of(rows, job_id).len() ==> (#[trigger] tools_of(
                rows,
                job_id,
            )[i]).tool_index <= (#[trigger] tools_of(rows, job_id)[j]).tool_index,
        rows.filter(of_other_job(job_id)).contains(row) <==> rows.contains(row) && row.job_id
            != job_id,
{
    let f = |row: ToolRow| row.tool;
    let mine = rows.filter(of_job(job_id));
    let tools = mine.map_values(f);
    let listed = tools_of(rows, job_id);
    lists::filtering_keeps_what_is_picked(rows, of_job(job_id), row);
    lists::filtering_keeps_what_is_picked(rows, of_other_job(job_id), row);
    order::sorting_holds_the_same_items(tools, tool_order(), row.tool);
    order::sorting_sorts(tools, tool_order());
    if mine.contains(row) {
        let i = choose|i: int| 0 <= i < mine.len() && mine[i] == row;
        assert(tools[i] == row.tool);
    }
    assert forall|tool: JobTool| #[trigger] listed.contains(tool) implies exists|i: int|
        0 <= i < rows.len() && (#[trigger] rows[i]).job_id == job_id && rows[i].tool == tool by {
        order::sorting_holds_the_same_items(tools, tool_order(), tool);
        let k = choose|k: int| 0 <= k < tools.len() && tools[k] == tool;
        lists::filtering_keeps_what_is_picked(rows, of_job(job_id), mine[k]);
        assert(mine.contains(mine[k]));
        let i = choose|i: int| 0 <= i < rows.len() && rows[i] == mine[k];
        assert(rows[i].job_id == job_id && rows[i].tool == tool);
    }
    assert forall|i: int, j: int| 0 <= i < j < listed.len() implies (
    #[trigger] listed[i]).tool_index <= (#[trigger] listed[j]).tool_index by {
        assert(tool_order()(listed[i], listed[j]));
    }
}

/// A tool of a sliced file is written down with what the file says of it, in no tray yet.
pub proof fn sliced_tools_are_written_down(job_id: i64, tool: ToolUse, spool_id: Option<i64>)
    ensures
        ({
            let row = needed_tool(job_id, tool, spool_id);
            &&& row.job_id == job_id
            &&& row.tool.tool_index == tool.index
            &&& row.tool.mg == tool.mg
            &&& row.tool.material == tool.material
            &&& row.tool.color_hex == tool.color
            &&& row.tool.spool_id == spool_id
            &&& row.tool.canvas_id is None && row.tool.tray_id is None
        }),
{
}

/// Jobs that are not over are always listed; of the others, the recent ones.
pub proof fn what_is_not_over_is_listed(recent: Seq<i64>, job: Job)
    ensures
        is_listed(recent)(job) <==> recent.contains(job.id) || !(job.state == JobState::Done
            || job.state == JobState::Failed || job.state == JobState::Cancelled),
{
}

} // verus!

//! The print queue: confirming jobs, cancelling and reordering them, and the bed-clear gate.

use vstd::prelude::*;

use crate::accounts::{Role, User};
use crate::cc2::model::Tray;
use crate::dispatcher::Readiness;
use crate::inventory::{self, Binding, Inventory, Spool};
use crate::jobs::{self, Job, JobState, JobTool, Jobs, Source, StartContext};
use crate::num;
use crate::order;
use crate::slicer;
use crate::text;
use crate::web::error::AppError;
use crate::web::forms::{Choice, Fields};
use crate::web::upload;
use crate::web::views;
use crate::zone::Zone;

verus! {

/// Finished jobs listed under the queue.
pub const RECENT_FINISHED: i64 = 20;

pub open spec fn owner_text(job: Job) -> Seq<char> {
    match job.owner {
        Some((_, name)) => name@,
        None => ""@,
    }
}

fn owner_name(job: &Job) -> (r: String)
    ensures
        r@ == owner_text(*job),
{
    match &job.owner {
        Some((_, name)) => name.clone(),
        None => "".to_string(),
    }
}

pub open spec fn estimate_text(job: Job) -> Seq<char> {
    match job.estimated_seconds {
        Some(seconds) => views::duration_text(seconds as int),
        None => ""@,
    }
}

fn estimate(job: &Job) -> (r: String)
    ensures
        r@ == estimate_text(*job),
{
    match job.estimated_seconds {
        Some(seconds) => views::human_duration(seconds),
        None => "".to_string(),
    }
}

/// Outcomes are fixed codes, as on the users page, so a crafted link cannot put text of the
/// sender's choosing on the page.
#[derive(Debug, PartialEq, Eq)]
pub struct Outcome {
    pub done: Option<String>,
}

pub open spec fn queue_notice(code: Seq<char>) -> Option<Seq<char>> {
    if code == "queued"@ {
        Some("Job added to the queue."@)
    } else if code == "cancelled"@ {
        Some("Job cancelled."@)
    } else if code == "bed"@ {
        Some("Bed marked clear."@)
    } else if code == "requeued"@ {
        Some("Job queued again."@)
    } else {
        None
    }
}

pub open spec fn opt_str(s: Option<&'static str>) -> Option<Seq<char>> {
    match s {
        Some(s) => Some(s@),
        None => None,
    }
}

impl Outcome {
    /// What the queue says of the outcome.
    pub fn notice(&self) -> (r: Option<&'static str>)
        ensures
            opt_str(r) == match self.done {
                Some(code) => queue_notice(code@),
                None => None,
            },
    {
        match &self.done {
            None => None,
            Some(code) => {
                let code = code.as_str();
                if text::same(code, "queued") {
                    Some("Job added to the queue.")
                } else if text::same(code, "cancelled") {
                    Some("Job cancelled.")
                } else if text::same(code, "bed") {
                    Some("Bed marked clear.")
                } else if text::same(code, "requeued") {
                    Some("Job queued again.")
                } else {
                    None
                }
            },
        }
    }

    /// What a job's own page says of the outcome.
    pub fn job_notice(&self) -> (r: Option<&'static str>)
        ensures
            opt_str(r) == match self.done {
                Some(code) => if code@ == "stopping"@ {
                    Some("Stop sent to the printer."@)
                } else {
                    None
                },
                None => None,
            },
    {
        match &self.done {
            None => None,
            Some(code) => if text::same(code.as_str(), "stopping") {
                Some("Stop sent to the printer.")
            } else {
                None
            },
        }
    }
}

// ---------------------------------------------------------------------------------------------
// Rows
// ---------------------------------------------------------------------------------------------

#[derive(Debug, PartialEq, Eq)]
pub struct JobRow {
    pub id: i64,
    pub name: String,
    pub owner: String,
    pub state: &'static str,
    pub detail: String,
    pub estimate: String,
    /// Place in the queue, counting from 1; only queued jobs have one.
    pub position: Option<usize>,
    pub filament: Vec<FilamentChip>,
    /// Whether there is G-code to draw a preview from.
    pub preview: bool,
    pub printing: bool,
    pub can_cancel: bool,
    pub can_move: bool,
    pub can_requeue: bool,
}

#[derive(Debug, PartialEq, Eq)]
pub struct FilamentChip {
    /// Always a valid `#RRGGBB`: it is written into an SVG attribute.
    pub color: String,
    pub label: String,
}

/// Where a tool prints from: the tray it printed from, or the one its spool is in.
pub open spec fn tool_tray(tool: JobTool, bindings: Seq<Binding>) -> Option<(i64, i64)> {
    match (tool.canvas_id, tool.tray_id) {
        (Some(canvas), Some(tray)) => Some((canvas, tray)),
        _ => match tool.spool_id {
            None => None,
            Some(spool) => {
                let i = jobs::binding_at(bindings, spool, 0);
                if i < bindings.len() {
                    Some((bindings[i].canvas_id, bindings[i].tray_id))
                } else {
                    None
                }
            },
        },
    }
}

/// The spool chosen for a tool.
pub open spec fn tool_spool(tool: JobTool, spools: Seq<Spool>) -> Option<Spool> {
    match tool.spool_id {
        None => None,
        Some(id) => {
            let i = inventory::spool_at(spools, id, 0);
            if i < spools.len() {
                Some(spools[i])
            } else {
                None
            }
        },
    }
}

impl FilamentChip {
    /// The chosen spool is what will print; the G-code only names what it was sliced for.
    pub open spec fn shows(self, tool: JobTool, bindings: Seq<Binding>, spools: Seq<Spool>) -> bool {
        let (color, material) = match tool_spool(tool, spools) {
            Some(spool) => (spool.color_hex@, spool.material@),
            None => (tool.color_hex@, tool.material@),
        };
        &&& self.color@ == views::safe_color_text(color)
        &&& self.label@ == match tool_tray(tool, bindings) {
            Some((canvas, tray)) => inventory::tray_name(canvas as int, tray as int) + " "@
                + material,
            None => material,
        }
    }
}

/// Trays have a next number.
pub open spec fn trays_count(tools: Seq<JobTool>, bindings: Seq<Binding>) -> bool {
    &&& forall|i: int|
        0 <= i < tools.len() ==> ((#[trigger] tools[i]).tray_id matches Some(tray) ==> tray
            < i64::MAX)
    &&& forall|i: int| 0 <= i < bindings.len() ==> (#[trigger] bindings[i]).tray_id < i64::MAX
}

fn find_binding(bindings: &Vec<Binding>, spool: i64) -> (r: usize)
    ensures
        r == jobs::binding_at(bindings@, spool, 0),
        r <= bindings@.len(),
{
    let mut i: usize = 0;
    while i < bindings.len() && bindings[i].spool.id != spool
        invariant
            i <= bindings@.len(),
            jobs::binding_at(bindings@, spool, 0) == jobs::binding_at(bindings@, spool, i as int),
        decreases bindings.len() - i,
    {
        i += 1;
    }
    i
}

fn chip(tool: &JobTool, bindings: &Vec<Binding>, db: &Inventory) -> (r: FilamentChip)
    requires
        tool.tray_id matches Some(tray) ==> tray < i64::MAX,
        forall|i: int|
            0 <= i < bindings@.len() ==> (#[trigger] bindings@[i]).tray_id < i64::MAX,
    ensures
        r.shows(*tool, bindings@, db.spools@),
{
    let tray: Option<(i64, i64)> = match (tool.canvas_id, tool.tray_id) {
        (Some(canvas), Some(tray)) => Some((canvas, tray)),
        _ => match tool.spool_id {
            None => None,
            Some(spool) => {
                let i = find_binding(bindings, spool);
                if i < bindings.len() {
                    Some((bindings[i].canvas_id, bindings[i].tray_id))
                } else {
                    None
                }
            },
        },
    };
    let spool = match tool.spool_id {
        Some(id) => inventory::spool(db, id),
        None => None,
    };
    let (color, material) = match &spool {
        Some(spool) => (views::safe_color(spool.color_hex.as_str()), spool.material.clone()),
        None => (views::safe_color(tool.color_hex.as_str()), tool.material.clone()),
    };
    let label = match tray {
        Some((canvas, tray)) => {
            let mut out = inventory::tray_label(canvas, tray);
            out.append(" ");
            out.append(material.as_str());
            out
        },
        None => material,
    };
    FilamentChip { color, label }
}

pub open spec fn are_chips(
    chips: Seq<FilamentChip>,
    tools: Seq<JobTool>,
    bindings: Seq<Binding>,
    spools: Seq<Spool>,
) -> bool {
    chips.len() == tools.len() && forall|i: int|
        0 <= i < chips.len() ==> (#[trigger] chips[i]).shows(tools[i], bindings, spools)
}

fn chips(tools: &Vec<JobTool>, bindings: &Vec<Binding>, db: &Inventory) -> (r: Vec<FilamentChip>)
    requires
        trays_count(tools@, bindings@),
    ensures
        are_chips(r@, tools@, bindings@, db.spools@),
{
    let mut out: Vec<FilamentChip> = Vec::new();
    let mut i: usize = 0;
    while i < tools.len()
        invariant
            i <= tools@.len(),
            trays_count(tools@, bindings@),
            out@.len() == i,
            forall|k: int|
                0 <= k < i ==> (#[trigger] out@[k]).shows(tools@[k], bindings@, db.spools@),
        decreases tools.len() - i,
    {
        out.push(chip(&tools[i], bindings, db));
        i += 1;
    }
    out
}

/// What is said of a job that cannot start, or of one that can.
pub open spec fn waiting_text(ctx: StartContext, job: Job, tools: Seq<JobTool>) -> Seq<char> {
    match ctx.blocked(job, tools) {
        None => "Starting shortly."@,
        Some(reason) => reason.text(*ctx.tz),
    }
}

pub open spec fn detail_text(ctx: StartContext, job: Job, tools: Seq<JobTool>) -> Seq<char> {
    match job.state {
        JobState::Queued => waiting_text(ctx, job, tools),
        JobState::Printing => text::decimal_int(job.progress as int) + "% done"@,
        JobState::Failed => job.error@,
        JobState::Done | JobState::Cancelled => match job.finished_at {
            Some(at) => views::time_text(at as int, *ctx.tz),
            None => ""@,
        },
        _ => ""@,
    }
}

/// What is known of a job is in range: its trays, and the filament it needs.
pub open spec fn presentable(job: Job, tools: Seq<JobTool>, bindings: Seq<Binding>) -> bool {
    &&& jobs::needed_in_all(tools, tools.len() as int) <= i64::MAX
    &&& trays_count(tools, bindings)
}

/// What a page needs to know besides the jobs.
pub struct Surroundings<'a> {
    pub readiness: &'a Readiness,
    pub inventory: &'a Inventory,
    pub zone: &'a Zone,
    /// In millionths.
    pub estimate_margin: u64,
    pub now: i64,
    pub user: &'a User,
    /// The user may control every print.
    pub control_any: bool,
}

impl<'a> Surroundings<'a> {
    pub open spec fn well_formed(self) -> bool {
        self.readiness.well_formed()
    }

    pub open spec fn context(self) -> StartContext<'a> {
        self.readiness.context(self.zone, self.estimate_margin, self.now)
    }

    fn waiting(&self, job: &Job, tools: &Vec<JobTool>) -> (r: Option<String>)
        requires
            self.well_formed(),
            presentable(*job, tools@, self.readiness.bindings@),
        ensures
            match (r, self.context().blocked(*job, tools@)) {
                (Some(said), Some(reason)) => said@ == reason.text(*self.zone),
                (None, None) => true,
                _ => false,
            },
    {
        proof {
            jobs::reasons_can_be_said(self.context(), *job, tools@);
        }
        match self.readiness.check(
            self.zone,
            self.estimate_margin,
            self.now,
            job,
            tools.as_slice(),
        ) {
            Ok(_) => None,
            Err(reason) => Some(reason.describe(self.zone)),
        }
    }

    fn detail(&self, job: &Job, tools: &Vec<JobTool>) -> (r: String)
        requires
            self.well_formed(),
            presentable(*job, tools@, self.readiness.bindings@),
        ensures
            r@ == detail_text(self.context(), *job, tools@),
    {
        match job.state {
            JobState::Queued => match self.waiting(job, tools) {
                None => "Starting shortly.".to_string(),
                Some(reason) => reason,
            },
            JobState::Printing => {
                let mut out = text::decimal_int_string(job.progress);
                out.append("% done");
                out
            },
            JobState::Failed => job.error.clone(),
            JobState::Done | JobState::Cancelled => match job.finished_at {
                Some(at) => views::format_time(at, self.zone),
                None => "".to_string(),
            },
            _ => "".to_string(),
        }
    }
}

/// How many of the first `n` jobs wait in the queue.
pub open spec fn queued_upto(jobs: Seq<Job>, n: int) -> int
    decreases n,
{
    if n <= 0 {
        0
    } else {
        queued_upto(jobs, n - 1) + if jobs[n - 1].state == JobState::Queued {
            1int
        } else {
            0
        }
    }
}

impl JobRow {
    pub open spec fn shows(
        self,
        job: Job,
        tools: Seq<JobTool>,
        place: int,
        has_gcode: bool,
        around: Surroundings,
    ) -> bool {
        &&& self.id == job.id
        &&& self.name@ == job.name@
        &&& self.owner@ == owner_text(job)
        &&& self.state@ == job.state.title()
        &&& self.detail@ == detail_text(around.context(), job, tools)
        &&& self.estimate@ == estimate_text(job)
        &&& match self.position {
            Some(position) => job.state == JobState::Queued && position == place,
            None => job.state != JobState::Queued,
        }
        &&& are_chips(
            self.filament@,
            tools,
            around.readiness.bindings@,
            around.inventory.spools@,
        )
        &&& self.preview == has_gcode
        &&& self.printing == (job.state == JobState::Printing)
        &&& self.can_cancel == job.is_cancellable_by(*around.user, around.control_any)
        &&& self.can_move == (around.user.role == Role::Admin && job.state == JobState::Queued)
        &&& self.can_requeue == job.is_retryable_by(*around.user, tools, has_gcode)
    }
}

fn job_row(
    job: &Job,
    tools: &Vec<JobTool>,
    position: Option<usize>,
    has_gcode: bool,
    around: &Surroundings,
) -> (r: JobRow)
    requires
        around.well_formed(),
        presentable(*job, tools@, around.readiness.bindings@),
        position is Some <==> job.state == JobState::Queued,
    ensures
        forall|place: int|
            (position matches Some(at) ==> at == place) ==> #[trigger] r.shows(
                *job,
                tools@,
                place,
                has_gcode,
                *around,
            ),
{
    JobRow {
        id: job.id,
        name: job.name.clone(),
        owner: owner_name(job),
        state: job.state.label(),
        detail: around.detail(job, tools),
        estimate: estimate(job),
        position,
        filament: chips(tools, &around.readiness.bindings, around.inventory),
        preview: has_gcode,
        printing: job.state == JobState::Printing,
        can_cancel: job.cancellable_by(around.user, around.control_any),
        can_move: around.user.is_admin() && job.state == JobState::Queued,
        can_requeue: job.retryable_by(around.user, tools.as_slice(), has_gcode),
    }
}

/// The rows of some jobs, each with its place among those that wait.
pub open spec fn are_rows(
    rows: Seq<JobRow>,
    listed: Seq<Job>,
    tools: Seq<jobs::ToolRow>,
    has_gcode: Seq<bool>,
    around: Surroundings,
) -> bool {
    rows.len() == listed.len() && forall|i: int|
        0 <= i < rows.len() ==> (#[trigger] rows[i]).shows(
            listed[i],
            jobs::tools_of(tools, listed[i].id),
            queued_upto(listed, i + 1),
            has_gcode[i],
            around,
        )
}

pub fn job_rows(db: &Jobs, listed: &Vec<Job>, has_gcode: &Vec<bool>, around: &Surroundings) -> (r: Vec<
    JobRow,
>)
    requires
        around.well_formed(),
        has_gcode@.len() == listed@.len(),
        forall|i: int|
            0 <= i < listed@.len() ==> presentable(
                #[trigger] listed@[i],
                jobs::tools_of(db.tools@, listed@[i].id),
                around.readiness.bindings@,
            ),
    ensures
        are_rows(r@, listed@, db.tools@, has_gcode@, *around),
{
    let mut rows: Vec<JobRow> = Vec::new();
    let mut queued: usize = 0;
    let mut i: usize = 0;
    while i < listed.len()
        invariant
            i <= listed@.len(),
            rows@.len() == i,
            around.well_formed(),
            has_gcode@.len() == listed@.len(),
            queued <= i,
            queued == queued_upto(listed@, i as int),
            forall|k: int|
                0 <= k < listed@.len() ==> presentable(
                    #[trigger] listed@[k],
                    jobs::tools_of(db.tools@, listed@[k].id),
                    around.readiness.bindings@,
                ),
            forall|k: int|
                0 <= k < i ==> (#[trigger] rows@[k]).shows(
                    listed@[k],
                    jobs::tools_of(db.tools@, listed@[k].id),
                    queued_upto(listed@, k + 1),
                    has_gcode@[k],
                    *around,
                ),
        decreases listed.len() - i,
    {
        let job = &listed[i];
        let tools = jobs::tools(db, job.id);
        let position: Option<usize> = if job.state == JobState::Queued {
            queued += 1;
            Some(queued)
        } else {
            None
        };
        let row = job_row(job, &tools, position, has_gcode[i], around);
        assert(row.shows(
            *job,
            tools@,
            queued_upto(listed@, i + 1),
            has_gcode@[i as int],
            *around,
        ));
        rows.push(row);
        i += 1;
    }
    rows
}

#[derive(Debug)]
pub struct JobsPage {
    pub rows: Vec<JobRow>,
    pub bed_clear: bool,
    pub printer_busy: bool,
    pub camera_enabled: bool,
    pub notice: Option<&'static str>,
}

/// The queue, and the jobs that ended last.
pub fn jobs_page(
    db: &Jobs,
    listed: &Vec<Job>,
    has_gcode: &Vec<bool>,
    around: &Surroundings,
    camera_enabled: bool,
    outcome: &Outcome,
) -> (r: JobsPage)
    requires
        around.well_formed(),
        has_gcode@.len() == listed@.len(),
        forall|i: int|
            0 <= i < listed@.len() ==> presentable(
                #[trigger] listed@[i],
                jobs::tools_of(db.tools@, listed@[i].id),
                around.readiness.bindings@,
            ),
    ensures
        are_rows(r.rows@, listed@, db.tools@, has_gcode@, *around),
        r.bed_clear == around.readiness.bed_clear,
        r.printer_busy == around.readiness.busy(),
        r.camera_enabled == camera_enabled,
        opt_str(r.notice) == match outcome.done {
            Some(code) => queue_notice(code@),
            None => None,
        },
{
    JobsPage {
        rows: job_rows(db, listed, has_gcode, around),
        bed_clear: around.readiness.bed_clear,
        printer_busy: around.readiness.printer_busy(),
        camera_enabled,
        notice: outcome.notice(),
    }
}

/// Unfinished jobs for the dashboard's preview of the queue, in queue order: the first few, and
/// how many there are.
pub fn upcoming(db: &Jobs, limit: usize) -> (r: (Vec<Job>, usize))
    ensures
        ({
            let all = order::sorted(
                db.jobs@.filter(
                    jobs::is_listed(jobs::ids(jobs::recently_finished(db.jobs@, 0))),
                ),
                jobs::list_order(),
            );
            &&& r.1 == all.len()
            &&& r.0@ == if all.len() > limit {
                all.take(limit as int)
            } else {
                all
            }
        }),
{
    let mut all = jobs::list(db, 0);
    let total: usize = all.len();
    if total > limit {
        all.truncate(limit);
    }
    (all, total)
}

// ---------------------------------------------------------------------------------------------
// One job
// ---------------------------------------------------------------------------------------------

#[derive(Debug, PartialEq, Eq)]
pub struct JobPage {
    pub job: JobView,
    pub tools: Vec<ToolRow>,
    pub confirm: bool,
    pub blocked: Option<String>,
    pub notice: Option<&'static str>,
    pub error: Option<String>,
}

#[derive(Debug, PartialEq, Eq)]
pub struct JobView {
    pub id: i64,
    pub name: String,
    pub owner: String,
    pub state: &'static str,
    pub source: &'static str,
    pub sliced_for: Option<String>,
    pub plate: Option<String>,
    pub settings: Option<String>,
    pub estimate: String,
    pub error: String,
    pub progress: i64,
    pub slicing: bool,
    pub printing: bool,
    pub can_cancel: bool,
    pub can_requeue: bool,
    pub created: String,
    /// Downloads, named as they would be saved. Absent while the file is not on disk yet.
    pub model_file: Option<String>,
    pub gcode_file: Option<String>,
}

#[derive(Debug, PartialEq, Eq)]
pub struct ToolRow {
    pub index: u32,
    pub label: String,
    pub material: String,
    pub color: String,
    pub grams: String,
    pub spool: String,
    pub tray: String,
    pub choices: Vec<Choice>,
}

/// A tray that would hold what a tool was sliced for.
pub open spec fn is_wanted(tray: Tray, tool: JobTool) -> bool {
    &&& tray.filament_type@ == tool.material@
    &&& tray.filament_color@ == tool.color_hex@
}

/// The spools in use, with those that fit the tool best first.
pub open spec fn ranked_for(spools: Seq<Spool>, tray: Tray) -> Seq<Spool> {
    order::sorted(spools, inventory::nearest_first(tray))
}

pub open spec fn are_tool_choices(choices: Seq<Choice>, ranked: Seq<Spool>, tool: JobTool) -> bool {
    choices.len() == ranked.len() && forall|i: int|
        0 <= i < choices.len() ==> (#[trigger] choices[i]).is(
            text::decimal_int(ranked[i].id as int),
            upload::spool_choice(ranked[i]),
            tool.spool_id == Some(ranked[i].id),
        )
}

impl ToolRow {
    pub open spec fn shows(
        self,
        tool: JobTool,
        spools: Seq<Spool>,
        loadable: Seq<Spool>,
        confirm: bool,
    ) -> bool {
        &&& self.index == tool.tool_index
        &&& self.label@ == "Filament "@ + text::decimal((tool.tool_index + 1) as nat)
        &&& self.material@ == tool.material@
        &&& self.color@ == views::safe_color_text(tool.color_hex@)
        &&& self.grams@ == views::grams_text(tool.mg as int)
        &&& self.spool@ == match tool_spool(tool, spools) {
            Some(spool) => views::spool_title(spool),
            None => "Not chosen"@,
        }
        &&& self.tray@ == match (tool.canvas_id, tool.tray_id) {
            (Some(canvas), Some(tray)) => inventory::tray_name(canvas as int, tray as int),
            _ => ""@,
        }
        &&& if confirm {
            exists|tray: Tray| #[trigger]
                is_wanted(tray, tool) && are_tool_choices(
                    self.choices@,
                    ranked_for(loadable, tray),
                    tool,
                )
        } else {
            self.choices@.len() == 0
        }
    }
}

fn tool_choices(tool: &JobTool, loadable: &Vec<Spool>) -> (r: Vec<Choice>)
    ensures
        exists|tray: Tray| #[trigger]
            is_wanted(tray, *tool) && are_tool_choices(
                r@,
                ranked_for(loadable@, tray),
                *tool,
            ),
{
    let mut wanted = Tray::default();
    wanted.filament_type = tool.material.clone();
    wanted.filament_color = tool.color_hex.clone();
    let ranked = inventory::rank_for_tray(copy_spools(loadable), &wanted);
    let mut out: Vec<Choice> = Vec::new();
    let mut i: usize = 0;
    while i < ranked.len()
        invariant
            i <= ranked@.len(),
            out@.len() == i,
            forall|k: int|
                0 <= k < i ==> (#[trigger] out@[k]).is(
                    text::decimal_int(ranked@[k].id as int),
                    upload::spool_choice(ranked@[k]),
                    tool.spool_id == Some(ranked@[k].id),
                ),
        decreases ranked.len() - i,
    {
        let spool = &ranked[i];
        let selected = match tool.spool_id {
            Some(id) => id == spool.id,
            None => false,
        };
        out.push(
            Choice {
                value: text::decimal_int_string(spool.id),
                name: upload::spool_choice_name(spool),
                selected,
            },
        );
        i += 1;
    }
    assert(is_wanted(wanted, *tool));
    out
}

pub fn copy_spools(spools: &Vec<Spool>) -> (r: Vec<Spool>)
    ensures
        r@ == spools@,
{
    let mut out: Vec<Spool> = Vec::new();
    let mut i: usize = 0;
    while i < spools.len()
        invariant
            i <= spools@.len(),
            out@ == spools@.take(i as int),
        decreases spools.len() - i,
    {
        out.push(spools[i].clone());
        assert(spools@.take(i + 1) =~= spools@.take(i as int).push(spools@[i as int]));
        i += 1;
    }
    assert(spools@.take(i as int) =~= spools@);
    out
}

fn tool_row(tool: &JobTool, db: &Inventory, loadable: &Vec<Spool>, confirm: bool) -> (r: ToolRow)
    requires
        tool.tray_id matches Some(tray) ==> tray < i64::MAX,
    ensures
        r.shows(*tool, db.spools@, loadable@, confirm),
{
    let mut label = "Filament ".to_string();
    text::push_decimal(&mut label, tool.tool_index as u64 + 1);
    let spool = match tool.spool_id {
        Some(id) => inventory::spool(db, id),
        None => None,
    };
    let spool_name = match &spool {
        Some(spool) => views::spool_name(spool),
        None => "Not chosen".to_string(),
    };
    let tray = match (tool.canvas_id, tool.tray_id) {
        (Some(canvas), Some(tray)) => inventory::tray_label(canvas, tray),
        _ => "".to_string(),
    };
    let choices = if confirm {
        tool_choices(tool, loadable)
    } else {
        Vec::new()
    };
    ToolRow {
        index: tool.tool_index,
        label,
        material: tool.material.clone(),
        color: views::safe_color(tool.color_hex.as_str()),
        grams: views::grams(tool.mg),
        spool: spool_name,
        tray,
        choices,
    }
}

pub open spec fn are_tool_rows(
    rows: Seq<ToolRow>,
    tools: Seq<JobTool>,
    spools: Seq<Spool>,
    loadable: Seq<Spool>,
    confirm: bool,
) -> bool {
    rows.len() == tools.len() && forall|i: int|
        0 <= i < rows.len() ==> (#[trigger] rows[i]).shows(tools[i], spools, loadable, confirm)
}

fn tool_rows(tools: &Vec<JobTool>, db: &Inventory, loadable: &Vec<Spool>, confirm: bool) -> (r: Vec<
    ToolRow,
>)
    requires
        forall|i: int|
            0 <= i < tools@.len() ==> ((#[trigger] tools@[i]).tray_id matches Some(tray) ==> tray
                < i64::MAX),
    ensures
        are_tool_rows(r@, tools@, db.spools@, loadable@, confirm),
{
    let mut out: Vec<ToolRow> = Vec::new();
    let mut i: usize = 0;
    while i < tools.len()
        invariant
            i <= tools@.len(),
            out@.len() == i,
            forall|k: int|
                0 <= k < tools@.len() ==> ((#[trigger] tools@[k]).tray_id matches Some(tray) ==> tray
                    < i64::MAX),
            forall|k: int|
                0 <= k < i ==> (#[trigger] out@[k]).shows(
                    tools@[k],
                    db.spools@,
                    loadable@,
                    confirm,
                ),
        decreases tools.len() - i,
    {
        out.push(tool_row(&tools[i], db, loadable, confirm));
        i += 1;
    }
    out
}

pub open spec fn or_nothing(s: Option<String>) -> Seq<char> {
    match s {
        Some(s) => s@,
        None => ""@,
    }
}

/// How a model was sliced.
pub open spec fn settings_text(job: Job) -> Seq<char> {
    or_nothing(job.process_profile) + ", "@ + or_nothing(job.filament_profile) + ", "@
        + text::decimal_int(
        match job.infill_percent {
            Some(percent) => percent as int,
            None => 0,
        },
    ) + "% infill, supports "@ + (if job.supports == Some(true) {
        "on"@
    } else {
        "off"@
    }) + match job.scale_percent {
        Some(scale) => ", scaled to "@ + num::fixed_text(
            scale as nat,
            slicer::SCALE_PERCENT as nat,
            16,
        ) + "%"@,
        None => ""@,
    }
}

fn settings(job: &Job) -> (r: String)
    ensures
        r@ == settings_text(*job),
{
    let mut out = match &job.process_profile {
        Some(process) => process.clone(),
        None => "".to_string(),
    };
    out.append(", ");
    if let Some(filament) = &job.filament_profile {
        out.append(filament.as_str());
    } else {
        out.append("");
    }
    out.append(", ");
    text::push_decimal_int(
        &mut out,
        match job.infill_percent {
            Some(percent) => percent,
            None => 0,
        },
    );
    out.append("% infill, supports ");
    match job.supports {
        Some(true) => {
            out.append("on");
        },
        _ => {
            out.append("off");
        },
    }
    if let Some(scale) = job.scale_percent {
        out.append(", scaled to ");
        num::push_fixed(&mut out, scale, slicer::SCALE_PERCENT, 16);
        out.append("%");
    } else {
        out.append("");
    }
    assert(out@ =~= settings_text(*job));
    out
}

impl JobView {
    pub open spec fn shows(
        self,
        job: Job,
        tools: Seq<JobTool>,
        has_model: bool,
        has_gcode: bool,
        around: Surroundings,
    ) -> bool {
        &&& self.id == job.id
        &&& self.name@ == job.name@
        &&& self.owner@ == owner_text(job)
        &&& self.state@ == job.state.title()
        &&& self.source@ == match job.source {
            Source::Stl => "Model, sliced here"@,
            Source::Gcode => "G-code"@,
        }
        &&& text::opt_view(self.sliced_for) == match job.nozzle_um {
            Some(um) => Some(num::thousandths_text(um as nat) + " mm"@),
            None => None,
        }
        &&& text::opt_view(self.plate) == text::opt_view(job.plate)
        &&& text::opt_view(self.settings) == if job.source == Source::Stl {
            Some(settings_text(job))
        } else {
            None
        }
        &&& self.estimate@ == estimate_text(job)
        &&& self.error@ == job.error@
        &&& self.progress == job.progress
        &&& self.slicing == (job.state == JobState::Slicing)
        &&& self.printing == (job.state == JobState::Printing)
        &&& self.can_cancel == job.is_cancellable_by(*around.user, around.control_any)
        &&& self.can_requeue == job.is_retryable_by(*around.user, tools, has_gcode)
        &&& self.created@ == views::time_text(job.created_at as int, *around.zone)
        &&& text::opt_view(self.model_file) == if has_model {
            Some(download(job.name@, job.id as int, "stl"@))
        } else {
            None
        }
        &&& text::opt_view(self.gcode_file) == if has_gcode {
            Some(download(job.name@, job.id as int, "gcode"@))
        } else {
            None
        }
    }
}

fn job_view(
    job: &Job,
    tools: &Vec<JobTool>,
    has_model: bool,
    has_gcode: bool,
    around: &Surroundings,
) -> (r: JobView)
    ensures
        r.shows(*job, tools@, has_model, has_gcode, *around),
{
    let sliced_for = match job.nozzle_um {
        Some(um) => {
            let mut out = String::new();
            num::push_thousandths(&mut out, um);
            out.append(" mm");
            assert(out@ =~= num::thousandths_text(um as nat) + " mm"@);
            Some(out)
        },
        None => None,
    };
    JobView {
        id: job.id,
        name: job.name.clone(),
        owner: owner_name(job),
        state: job.state.label(),
        source: match job.source {
            Source::Stl => "Model, sliced here",
            Source::Gcode => "G-code",
        },
        sliced_for,
        plate: jobs::clone_text(&job.plate),
        settings: if job.source == Source::Stl {
            Some(settings(job))
        } else {
            None
        },
        estimate: estimate(job),
        error: job.error.clone(),
        progress: job.progress,
        slicing: job.state == JobState::Slicing,
        printing: job.state == JobState::Printing,
        can_cancel: job.cancellable_by(around.user, around.control_any),
        can_requeue: job.retryable_by(around.user, tools.as_slice(), has_gcode),
        created: views::format_time(job.created_at, around.zone),
        model_file: if has_model {
            Some(download_name(job.name.as_str(), job.id, "stl"))
        } else {
            None
        },
        gcode_file: if has_gcode {
            Some(download_name(job.name.as_str(), job.id, "gcode"))
        } else {
            None
        },
    }
}

/// The spools in use, in the order of the shelf.
pub open spec fn loadable(spools: Seq<Spool>) -> Seq<Spool> {
    order::sorted(spools.filter(inventory::on_the_shelf(false)), inventory::shelf_order())
}

impl JobPage {
    pub open spec fn shows(
        self,
        job: Job,
        tools: Seq<JobTool>,
        has_model: bool,
        has_gcode: bool,
        around: Surroundings,
    ) -> bool {
        let confirm = job.is_managed_by(*around.user) && job.state == JobState::AwaitingConfirm;
        &&& self.job.shows(job, tools, has_model, has_gcode, around)
        &&& are_tool_rows(
            self.tools@,
            tools,
            around.inventory.spools@,
            loadable(around.inventory.spools@),
            confirm,
        )
        &&& self.confirm == confirm
        &&& match (
            self.blocked,
            if job.state == JobState::Queued {
                around.context().blocked(job, tools)
            } else {
                None
            },
        ) {
            (Some(said), Some(reason)) => said@ == reason.text(*around.zone),
            (None, None) => true,
            _ => false,
        }
    }
}

/// What a job's own page shows. Its status is 400 where it says what went wrong.
pub fn job_detail(
    db: &Jobs,
    id: i64,
    has_model: bool,
    has_gcode: bool,
    around: &Surroundings,
    notice: Option<&'static str>,
    error: Option<String>,
) -> (r: Result<(u16, JobPage), AppError>)
    requires
        around.well_formed(),
        forall|i: int|
            0 <= i < db.jobs@.len() && (#[trigger] db.jobs@[i]).id == id ==> presentable(
                db.jobs@[i],
                jobs::tools_of(db.tools@, id),
                around.readiness.bindings@,
            ),
    ensures
        ({
            let i = jobs::job_at(db.jobs@, id, 0);
            match r {
                Ok((status, page)) => {
                    &&& i < db.jobs@.len()
                    &&& page.shows(
                        db.jobs@[i],
                        jobs::tools_of(db.tools@, id),
                        has_model,
                        has_gcode,
                        *around,
                    )
                    &&& page.notice == notice
                    &&& page.error == error
                    &&& status == if error is Some {
                        400u16
                    } else {
                        200
                    }
                },
                Err(problem) => i == db.jobs@.len() && problem == AppError::NotFound,
            }
        }),
{
    proof {
        jobs::lemma_job_at(db.jobs@, id, 0);
    }
    let job = match jobs::get(db, id) {
        None => {
            return Err(AppError::NotFound);
        },
        Some(job) => job,
    };
    let tools = jobs::tools(db, id);
    let confirm = job.managed_by(around.user) && job.state == JobState::AwaitingConfirm;
    let blocked = if job.state == JobState::Queued {
        around.waiting(&job, &tools)
    } else {
        None
    };
    let on_shelf = inventory::spools(around.inventory, false);
    let rows = tool_rows(&tools, around.inventory, &on_shelf, confirm);
    let view = job_view(&job, &tools, has_model, has_gcode, around);
    let status: u16 = if error.is_some() {
        400
    } else {
        200
    };
    Ok((status, JobPage { job: view, tools: rows, confirm, blocked, notice, error }))
}

// ---------------------------------------------------------------------------------------------
// Files
// ---------------------------------------------------------------------------------------------

pub open spec fn download(uploaded: Seq<char>, id: int, extension: Seq<char>) -> Seq<char> {
    let stem = jobs::plain_stem(uploaded);
    (if stem.len() == 0 {
        "printhub-"@ + text::decimal_int(id)
    } else {
        stem
    }) + "."@ + extension
}

/// The uploaded name with `extension` forced on it, reduced to characters that need no quoting
/// inside a `Content-Disposition` filename.
pub fn download_name(uploaded: &str, id: i64, extension: &str) -> (r: String)
    ensures
        r@ == download(uploaded@, id as int, extension@),
{
    let stem = jobs::file_stem(uploaded);
    let mut out = if stem.as_str().is_empty() {
        let mut out = "printhub-".to_string();
        text::push_decimal_int(&mut out, id);
        out
    } else {
        stem
    };
    out.append(".");
    out.append(extension);
    out
}

/// What is sent of a job.
#[derive(Debug, PartialEq, Eq)]
pub enum FileKind {
    Preview,
    /// A file to save: where it is, what it is, and what to save it as.
    File { path: String, content_type: &'static str, disposition: String },
}

pub open spec fn is_file(
    kind: FileKind,
    path: Seq<char>,
    content_type: Seq<char>,
    name: Seq<char>,
) -> bool {
    match kind {
        FileKind::File { path: at, content_type: typed, disposition } => {
            &&& at@ == path
            &&& typed@ == content_type
            &&& disposition@ == "attachment; filename=\""@ + name + "\""@
        },
        _ => false,
    }
}

fn disposition(name: &str) -> (r: String)
    ensures
        r@ == "attachment; filename=\""@ + name@ + "\""@,
{
    let mut out = "attachment; filename=\"".to_string();
    out.append(name);
    out.append("\"");
    out
}

/// A job's own files, for anyone logged in: everybody can already see every job.
pub fn job_file(db: &Jobs, id: i64, kind: &str, data_dir: &str) -> (r: Result<FileKind, AppError>)
    ensures
        ({
            let i = jobs::job_at(db.jobs@, id, 0);
            let job = db.jobs@[i];
            let dir = jobs::job_dir(data_dir@, id as int);
            if i >= db.jobs@.len() {
                r == Err::<FileKind, AppError>(AppError::NotFound)
            } else if kind@ == "preview.png"@ {
                r == Ok::<FileKind, AppError>(FileKind::Preview)
            } else if kind@ == "model.stl"@ {
                r matches Ok(file) && is_file(
                    file,
                    jobs::below(dir, "model.stl"@),
                    "model/stl"@,
                    download(job.name@, job.id as int, "stl"@),
                )
            } else if kind@ == "job.gcode"@ {
                r matches Ok(file) && is_file(
                    file,
                    jobs::below(dir, "job.gcode"@),
                    "text/x.gcode"@,
                    download(job.name@, job.id as int, "gcode"@),
                )
            } else {
                r == Err::<FileKind, AppError>(AppError::NotFound)
            }
        }),
{
    let job = match jobs::get(db, id) {
        None => {
            return Err(AppError::NotFound);
        },
        Some(job) => job,
    };
    if text::same(kind, "preview.png") {
        Ok(FileKind::Preview)
    } else if text::same(kind, "model.stl") {
        let name = download_name(job.name.as_str(), job.id, "stl");
        Ok(
            FileKind::File {
                path: jobs::model_path(data_dir, id),
                content_type: "model/stl",
                disposition: disposition(name.as_str()),
            },
        )
    } else if text::same(kind, "job.gcode") {
        let name = download_name(job.name.as_str(), job.id, "gcode");
        Ok(
            FileKind::File {
                path: jobs::gcode_path(data_dir, id),
                content_type: "text/x.gcode",
                disposition: disposition(name.as_str()),
            },
        )
    } else {
        Err(AppError::NotFound)
    }
}

/// A download's name holds nothing that could end the quotes around it: before the extension
/// stand only letters, digits, hyphens, underscores and spaces.
pub proof fn downloads_need_no_quoting(uploaded: Seq<char>, id: i64, extension: Seq<char>, i: int)
    requires
        0 <= i < download(uploaded, id as int, extension).len() - 1 - extension.len(),
    ensures
        jobs::is_plain(download(uploaded, id as int, extension)[i]),
{
    let stem = jobs::plain_stem(uploaded);
    reveal_strlit(".");
    if stem.len() == 0 {
        let number = text::decimal_int(id as int);
        reveal_strlit("printhub-");
        text::lemma_decimal(if id >= 0 { id as nat } else { (-id) as nat });
        let all = "printhub-"@ + number;
        assert(download(uploaded, id as int, extension)[i] == all[i]);
        if i >= "printhub-"@.len() {
            let k = i - "printhub-"@.len();
            assert(all[i] == number[k]);
            if id >= 0 {
                assert(text::is_digit(text::decimal(id as nat)[k]));
            } else if k > 0 {
                assert(number[k] == text::decimal((-id) as nat)[k - 1]);
                assert(text::is_digit(text::decimal((-id) as nat)[k - 1]));
            }
        }
    } else {
        assert(download(uploaded, id as int, extension)[i] == stem[i]);
        jobs::lemma_plain_stem(uploaded, i);
    }
}

// ---------------------------------------------------------------------------------------------
// What can be done to a job
// ---------------------------------------------------------------------------------------------

/// A job that a user may manage.
pub fn managed_job(db: &Jobs, user: &User, id: i64) -> (r: Result<Job, AppError>)
    ensures
        ({
            let i = jobs::job_at(db.jobs@, id, 0);
            if i >= db.jobs@.len() {
                r == Err::<Job, AppError>(AppError::NotFound)
            } else if !db.jobs@[i].is_managed_by(*user) {
                r == Err::<Job, AppError>(AppError::Forbidden)
            } else {
                r == Ok::<Job, AppError>(db.jobs@[i])
            }
        }),
{
    match jobs::get(db, id) {
        None => Err(AppError::NotFound),
        Some(job) => if job.managed_by(user) {
            Ok(job)
        } else {
            Err(AppError::Forbidden)
        },
    }
}

/// The spool that a form chooses for a tool, if it is in use.
pub open spec fn confirmed_spool(fields: Fields, tool: JobTool, spools: Seq<Spool>) -> Option<i64> {
    match fields.get_spec("spool_"@ + text::decimal(tool.tool_index as nat)) {
        None => None,
        Some(raw) => match text::parsed_signed(raw) {
            Some(id) if is_in_use(spools, id as i64) => Some(id as i64),
            _ => None,
        },
    }
}

pub open spec fn is_in_use(spools: Seq<Spool>, id: i64) -> bool {
    exists|i: int| 0 <= i < spools.len() && !(#[trigger] spools[i]).archived && spools[i].id == id
}

fn in_use(db: &Inventory, id: i64) -> (r: bool)
    ensures
        r == is_in_use(db.spools@, id),
{
    let mut i: usize = 0;
    while i < db.spools.len()
        invariant
            i <= db.spools@.len(),
            forall|k: int|
                0 <= k < i ==> (#[trigger] db.spools@[k]).archived || db.spools@[k].id != id,
        decreases db.spools.len() - i,
    {
        if !db.spools[i].archived && db.spools[i].id == id {
            return true;
        }
        i += 1;
    }
    false
}

/// The spools chosen for the first `n` tools, or the first tool without one.
pub open spec fn choices_upto(
    fields: Fields,
    tools: Seq<JobTool>,
    spools: Seq<Spool>,
    n: int,
) -> Result<Seq<(u32, i64)>, u32>
    decreases n,
{
    if n <= 0 {
        Ok(seq![])
    } else {
        match choices_upto(fields, tools, spools, n - 1) {
            Err(tool) => Err(tool),
            Ok(before) => match confirmed_spool(fields, tools[n - 1], spools) {
                Some(spool) => Ok(before.push((tools[n - 1].tool_index, spool))),
                None => Err(tools[n - 1].tool_index),
            },
        }
    }
}

proof fn lemma_choices_stay_refused(
    fields: Fields,
    tools: Seq<JobTool>,
    spools: Seq<Spool>,
    n: int,
    m: int,
)
    requires
        0 <= n <= m,
        choices_upto(fields, tools, spools, n) is Err,
    ensures
        choices_upto(fields, tools, spools, m) == choices_upto(fields, tools, spools, n),
    decreases m - n,
{
    if n < m {
        lemma_choices_stay_refused(fields, tools, spools, n, m - 1);
    }
}

fn read_choices(fields: &Fields, tools: &Vec<JobTool>, db: &Inventory) -> (r: Result<
    Vec<(u32, i64)>,
    u32,
>)
    ensures
        match (r, choices_upto(*fields, tools@, db.spools@, tools@.len() as int)) {
            (Ok(choices), Ok(shown)) => choices@ == shown,
            (Err(tool), Err(shown)) => tool == shown,
            _ => false,
        },
{
    let mut choices: Vec<(u32, i64)> = Vec::new();
    let mut i: usize = 0;
    while i < tools.len()
        invariant
            i <= tools@.len(),
            choices_upto(*fields, tools@, db.spools@, i as int) == Ok::<Seq<(u32, i64)>, u32>(
                choices@,
            ),
        decreases tools.len() - i,
    {
        let tool = &tools[i];
        let mut name = "spool_".to_string();
        text::push_decimal(&mut name, tool.tool_index as u64);
        let chosen: Option<i64> = match fields.get(name.as_str()) {
            None => None,
            Some(raw) => match text::parse_signed(text::chars(raw.as_str()).as_slice()) {
                Some(id) => if in_use(db, id) {
                    Some(id)
                } else {
                    None
                },
                None => None,
            },
        };
        match chosen {
            Some(spool) => {
                choices.push((tool.tool_index, spool));
            },
            None => {
                proof {
                    lemma_choices_stay_refused(
                        *fields,
                        tools@,
                        db.spools@,
                        i + 1,
                        tools@.len() as int,
                    );
                }
                return Err(tool.tool_index);
            },
        }
        i += 1;
    }
    Ok(choices)
}

/// What comes of a request to confirm a job.
#[derive(Debug, PartialEq, Eq)]
pub enum Confirmed {
    /// The job waits in the queue: on to this page.
    Queued(&'static str),
    /// The form is shown again, with what is missing.
    Missing(String),
    Refused(AppError),
}

/// The form carries one `spool_<tool>` field per tool.
pub fn confirm_job(
    db: &mut Jobs,
    inventory: &Inventory,
    user: &User,
    id: i64,
    fields: &Fields,
    now: i64,
) -> (r: Confirmed)
    requires
        jobs::last_position(old(db).jobs@) < i64::MAX,
    ensures
        old(db).well_formed() ==> final(db).well_formed(),
        final(db).printer == old(db).printer,
        ({
            let before = old(db).jobs@;
            let i = jobs::job_at(before, id, 0);
            let tools = jobs::tools_of(old(db).tools@, id);
            let unchanged = final(db).jobs@ == before && final(db).tools@ == old(db).tools@;
            if i >= before.len() {
                r == Confirmed::Refused(AppError::NotFound) && unchanged
            } else if !before[i].is_managed_by(*user) {
                r == Confirmed::Refused(AppError::Forbidden) && unchanged
            } else if before[i].state != JobState::AwaitingConfirm {
                &&& r matches Confirmed::Refused(problem) && problem.is_bad_request(
                    "This job is not waiting for confirmation."@,
                )
                &&& unchanged
            } else {
                match choices_upto(*fields, tools, inventory.spools@, tools.len() as int) {
                    Err(tool) => {
                        &&& r matches Confirmed::Missing(message) && message@
                            == "Choose a spool for filament "@ + text::decimal(
                            (tool + 1) as nat,
                        ) + "."@
                        &&& unchanged
                    },
                    Ok(choices) => {
                        &&& r matches Confirmed::Queued(next) && next@ == "/jobs?done=queued"@
                        &&& final(db).tools@ == old(db).tools@.map_values(
                            |row: jobs::ToolRow| jobs::with_choice(row, id, choices),
                        )
                        &&& jobs::one_stepped(
                            before,
                            final(db).jobs@,
                            i,
                            JobState::Queued,
                            Some(""@),
                            now,
                        )
                    },
                }
            }
        }),
{
    proof {
        jobs::lemma_job_at(db.jobs@, id, 0);
    }
    let job = match managed_job(db, user, id) {
        Err(problem) => {
            return Confirmed::Refused(problem);
        },
        Ok(job) => job,
    };
    if job.state != JobState::AwaitingConfirm {
        return Confirmed::Refused(
            AppError::BadRequest("This job is not waiting for confirmation.".to_string()),
        );
    }
    let tools = jobs::tools(db, id);
    match read_choices(fields, &tools, inventory) {
        Err(tool) => {
            let mut message = "Choose a spool for filament ".to_string();
            text::push_decimal(&mut message, tool as u64 + 1);
            message.append(".");
            Confirmed::Missing(message)
        },
        Ok(choices) => {
            jobs::choose_spools(db, id, choices.as_slice());
            let moved = jobs::transition(
                db,
                id,
                JobState::AwaitingConfirm,
                JobState::Queued,
                Some("".to_string()),
                now,
            );
            Confirmed::Queued("/jobs?done=queued")
        },
    }
}

/// What comes of a request to cancel a job.
#[derive(Debug, PartialEq, Eq)]
pub enum Cancelled {
    /// The print is to be stopped; then on to this page.
    Stop(String),
    /// The job is cancelled: on to this page.
    Done(&'static str),
    Refused(AppError),
}

pub fn cancel_job(db: &mut Jobs, user: &User, control_any: bool, id: i64, now: i64) -> (r: Cancelled)
    requires
        jobs::last_position(old(db).jobs@) < i64::MAX,
    ensures
        old(db).well_formed() ==> final(db).well_formed(),
        final(db).printer == old(db).printer,
        final(db).tools@ == old(db).tools@,
        ({
            let before = old(db).jobs@;
            let i = jobs::job_at(before, id, 0);
            let job = before[i];
            if i >= before.len() {
                r == Cancelled::Refused(AppError::NotFound) && final(db).jobs@ == before
            } else if !job.is_cancellable_by(*user, control_any) {
                &&& final(db).jobs@ == before
                &&& if job.state == JobState::Uploading {
                    r matches Cancelled::Refused(problem) && problem.is_bad_request(
                        "The job is being sent to the printer. Stop it once it prints."@,
                    )
                } else if job.state.ended() {
                    r matches Cancelled::Refused(problem) && problem.is_bad_request(
                        "This job has already ended."@,
                    )
                } else {
                    r == Cancelled::Refused(AppError::Forbidden)
                }
            } else if job.state == JobState::Printing {
                &&& r matches Cancelled::Stop(next) && next@ == "/jobs/"@ + text::decimal_int(
                    id as int,
                ) + "?done=stopping"@
                &&& final(db).jobs@ == before
            } else {
                &&& r matches Cancelled::Done(next) && next@ == "/jobs?done=cancelled"@
                &&& jobs::one_stepped(
                    before,
                    final(db).jobs@,
                    i,
                    JobState::Cancelled,
                    None,
                    now,
                )
            }
        }),
{
    proof {
        jobs::lemma_job_at(db.jobs@, id, 0);
    }
    let job = match jobs::get(db, id) {
        None => {
            return Cancelled::Refused(AppError::NotFound);
        },
        Some(job) => job,
    };
    if !job.cancellable_by(user, control_any) {
        let problem = if job.state == JobState::Uploading {
            AppError::BadRequest(
                "The job is being sent to the printer. Stop it once it prints.".to_string(),
            )
        } else if job.state.is_finished() {
            AppError::BadRequest("This job has already ended.".to_string())
        } else {
            AppError::Forbidden
        };
        return Cancelled::Refused(problem);
    }
    if job.state == JobState::Printing {
        let mut next = "/jobs/".to_string();
        text::push_decimal_int(&mut next, id);
        next.append("?done=stopping");
        return Cancelled::Stop(next);
    }
    let moved = jobs::transition(db, id, job.state, JobState::Cancelled, None, now);
    Cancelled::Done("/jobs?done=cancelled")
}

/// Queues a failed job again: on to the page that says so.
pub fn requeue_job(db: &mut Jobs, user: &User, id: i64, has_gcode: bool, now: i64) -> (r: Result<
    &'static str,
    AppError,
>)
    requires
        jobs::last_position(old(db).jobs@) < i64::MAX,
    ensures
        old(db).well_formed() ==> final(db).well_formed(),
        final(db).printer == old(db).printer,
        final(db).tools@ == old(db).tools@,
        ({
            let before = old(db).jobs@;
            let i = jobs::job_at(before, id, 0);
            if i >= before.len() {
                r == Err::<&'static str, AppError>(AppError::NotFound) && final(db).jobs@ == before
            } else if !before[i].is_managed_by(*user) {
                r == Err::<&'static str, AppError>(AppError::Forbidden) && final(db).jobs@ == before
            } else if !before[i].is_retryable_by(
                *user,
                jobs::tools_of(old(db).tools@, id),
                has_gcode,
            ) {
                &&& r matches Err(problem) && problem.is_bad_request(
                    "Only a failed job with sliced G-code can be retried."@,
                )
                &&& final(db).jobs@ == before
            } else {
                &&& r matches Ok(next) && next@ == "/jobs?done=requeued"@
                &&& jobs::one_stepped(
                    before,
                    final(db).jobs@,
                    i,
                    JobState::Queued,
                    Some(""@),
                    now,
                )
            }
        }),
{
    proof {
        jobs::lemma_job_at(db.jobs@, id, 0);
    }
    let job = match managed_job(db, user, id) {
        Err(problem) => {
            return Err(problem);
        },
        Ok(job) => job,
    };
    let tools = jobs::tools(db, id);
    if !job.retryable_by(user, tools.as_slice(), has_gcode) {
        return Err(
            AppError::BadRequest("Only a failed job with sliced G-code can be retried.".to_string()),
        );
    }
    let moved = jobs::transition(
        db,
        id,
        JobState::Failed,
        JobState::Queued,
        Some("".to_string()),
        now,
    );
    Ok("/jobs?done=requeued")
}

#[derive(Debug, PartialEq, Eq)]
pub struct MoveForm {
    pub direction: String,
}

/// Moves a waiting job one place up or down: on to the queue.
pub fn move_job(db: &mut Jobs, id: i64, form: &MoveForm) -> (r: &'static str)
    ensures
        old(db).well_formed() ==> final(db).well_formed(),
        final(db).tools@ == old(db).tools@,
        final(db).printer == old(db).printer,
        final(db).jobs@ == match jobs::moved(old(db).jobs@, id, form.direction@ == "up"@) {
            Some(after) => after,
            None => old(db).jobs@,
        },
        r@ == "/jobs"@,
{
    let moved = jobs::move_queued(db, id, text::same(form.direction.as_str(), "up"));
    "/jobs"
}

/// Records that the bed is clear: on to the page that says so.
pub fn mark_bed_clear(db: &mut Jobs, user: &User, now: i64) -> (r: &'static str)
    ensures
        final(db).jobs@ == old(db).jobs@,
        final(db).tools@ == old(db).tools@,
        final(db).printer == (jobs::PrinterRecord {
            bed_clear: true,
            bed_changed_by: Some(user.id),
            bed_changed_at: Some(now),
            ..old(db).printer
        }),
        r@ == "/jobs?done=bed"@,
{
    jobs::set_bed_clear(db, true, Some(user.id), now);
    "/jobs?done=bed"
}

/// Nobody but its owner, admins and those who may control any print can cancel a job, and the
/// last of these only once it prints.
pub proof fn strangers_cancel_nothing(job: Job, user: User)
    requires
        user.role != Role::Admin,
        job.owned_by() != Some(user.id),
    ensures
        !job.is_cancellable_by(user, false),
        job.state != JobState::Printing ==> !job.is_cancellable_by(user, true),
{
}

/// A job that has ended, or is being sent to the printer, cannot be cancelled by anyone.
pub proof fn ended_jobs_stay_ended(job: Job, user: User, control_any: bool)
    requires
        job.state.ended() || job.state == JobState::Uploading,
    ensures
        !job.is_cancellable_by(user, control_any),
{
}

/// A confirmation names for every tool a spool that is not archived; where one is missing or is no
/// such spool, the first such tool is told of.
pub proof fn every_tool_is_confirmed_with_a_spool_in_use(
    fields: Fields,
    tools: Seq<JobTool>,
    spools: Seq<Spool>,
    n: int,
    k: int,
)
    requires
        0 <= k < n <= tools.len(),
    ensures
        match choices_upto(fields, tools, spools, n) {
            Ok(choices) => {
                &&& choices.len() == n
                &&& choices[k].0 == tools[k].tool_index
                &&& text::parsed_signed(
                    fields.value("spool_"@ + text::decimal(tools[k].tool_index as nat)),
                ) == Some(choices[k].1 as int)
                &&& exists|i: int|
                    0 <= i < spools.len() && (#[trigger] spools[i]).id == choices[k].1
                        && !spools[i].archived
            },
            Err(tool) => exists|j: int|
                0 <= j < n && (#[trigger] tools[j]).tool_index == tool && confirmed_spool(
                    fields,
                    tools[j],
                    spools,
                ) is None,
        },
    decreases n,
{
    if n > 1 {
        every_tool_is_confirmed_with_a_spool_in_use(
            fields,
            tools,
            spools,
            n - 1,
            if k < n - 1 {
                k
            } else {
                0
            },
        );
    } else {
        assert(choices_upto(fields, tools, spools, 0) == Ok::<Seq<(u32, i64)>, u32>(seq![]));
    }
}

/// The jobs that wait are numbered from one on in the order of the list; others have no part in it.
pub proof fn waiting_jobs_are_numbered_in_order(jobs: Seq<Job>, i: int, j: int)
    requires
        0 <= i < j < jobs.len(),
        jobs[i].state == JobState::Queued,
        jobs[j].state == JobState::Queued,
        forall|k: int| i < k < j ==> (#[trigger] jobs[k]).state != JobState::Queued,
    ensures
        queued_upto(jobs, j + 1) == queued_upto(jobs, i + 1) + 1,
        (forall|k: int| 0 <= k < i ==> (#[trigger] jobs[k]).state != JobState::Queued)
            ==> queued_upto(jobs, i + 1) == 1,
{
    lemma_none_queued(jobs, i + 1, j);
    if forall|k: int| 0 <= k < i ==> (#[trigger] jobs[k]).state != JobState::Queued {
        lemma_none_queued(jobs, 0, i);
    }
}

proof fn lemma_none_queued(jobs: Seq<Job>, from: int, to: int)
    requires
        0 <= from <= to <= jobs.len(),
        forall|k: int| from <= k < to ==> (#[trigger] jobs[k]).state != JobState::Queued,
    ensures
        queued_upto(jobs, to) == queued_upto(jobs, from),
    decreases to - from,
{
    if from < to {
        lemma_none_queued(jobs, from, to - 1);
    }
}

/// A tool prints from the tray that was written down for it, or else from one that holds its
/// spool.
pub proof fn tools_print_from_their_tray(tool: JobTool, bindings: Seq<Binding>)
    ensures
        tool.canvas_id is Some && tool.tray_id is Some ==> tool_tray(tool, bindings) == Some(
            (tool.canvas_id->0, tool.tray_id->0),
        ),
        (tool.canvas_id is None || tool.tray_id is None) ==> match tool_tray(tool, bindings) {
            Some((canvas, tray)) => exists|i: int|
                0 <= i < bindings.len() && Some((#[trigger] bindings[i]).spool.id) == tool.spool_id
                    && bindings[i].canvas_id == canvas && bindings[i].tray_id == tray,
            None => forall|i: int|
                0 <= i < bindings.len() ==> Some((#[trigger] bindings[i]).spool.id) != tool.spool_id,
        },
{
    if let Some(spool) = tool.spool_id {
        lemma_spool_bound(bindings, spool, 0);
    }
}

proof fn lemma_spool_bound(bindings: Seq<Binding>, spool: i64, from: int)
    requires
        0 <= from <= bindings.len(),
    ensures
        ({
            let i = jobs::binding_at(bindings, spool, from);
            &&& from <= i <= bindings.len()
            &&& i < bindings.len() ==> bindings[i].spool.id == spool
            &&& forall|k: int| from <= k < i ==> (#[trigger] bindings[k]).spool.id != spool
        }),
    decreases bindings.len() - from,
{
    if from < bindings.len() {
        lemma_spool_bound(bindings, spool, from + 1);
    }
}

/// A row of the queue offers what its user may do: admins alone move jobs, and only those that
/// wait. Only a job that waits has a place.
pub proof fn rows_offer_what_their_user_may_do(
    row: JobRow,
    job: Job,
    tools: Seq<JobTool>,
    place: int,
    has_gcode: bool,
    around: Surroundings,
)
    requires
        row.shows(job, tools, place, has_gcode, around),
    ensures
        row.id == job.id && row.name@ == job.name@,
        row.can_move <==> around.user.role == Role::Admin && job.state == JobState::Queued,
        row.can_cancel ==> job.state == JobState::Slicing || job.state == JobState::AwaitingConfirm
            || job.state == JobState::Queued || job.state == JobState::Printing,
        row.can_requeue ==> job.state == JobState::Failed && has_gcode,
        row.position is Some <==> job.state == JobState::Queued,
        row.position is Some ==> row.position->0 == place,
        row.printing <==> job.state == JobState::Printing,
        row.preview == has_gcode,
        job.state == JobState::Failed ==> row.detail@ == job.error@,
        job.state == JobState::Printing ==> row.detail@ == text::decimal_int(job.progress as int)
            + "% done"@,
        row.filament@.len() == tools.len(),
{
}

/// The page of a job asks for spools while the job waits for them, and asks those alone who may
/// manage it.
pub proof fn spools_are_asked_for_while_a_job_waits_for_them(
    page: JobPage,
    job: Job,
    tools: Seq<JobTool>,
    has_model: bool,
    has_gcode: bool,
    around: Surroundings,
)
    requires
        page.shows(job, tools, has_model, has_gcode, around),
    ensures
        page.confirm <==> job.state == JobState::AwaitingConfirm && (around.user.role == Role::Admin
            || match job.owner {
            Some((id, _)) => id == around.user.id,
            None => false,
        }),
        page.blocked is Some ==> job.state == JobState::Queued,
        page.tools@.len() == tools.len(),
        page.job.model_file is Some <==> has_model,
        page.job.gcode_file is Some <==> has_gcode,
        page.job.settings is Some <==> job.source == Source::Stl,
        forall|i: int|
            0 <= i < tools.len() && !page.confirm ==> (#[trigger] page.tools@[i]).choices@.len()
                == 0,
{
}

/// The spool of a tool is the one that was chosen for it.
pub proof fn a_tool_has_the_spool_that_was_chosen(tool: JobTool, spools: Seq<Spool>)
    ensures
        match tool_spool(tool, spools) {
            Some(spool) => spools.contains(spool) && tool.spool_id == Some(spool.id),
            None => forall|i: int|
                0 <= i < spools.len() ==> tool.spool_id != Some((#[trigger] spools[i]).id),
        },
{
    if let Some(id) = tool.spool_id {
        inventory::lemma_spool_at(spools, id, 0);
    }
}

} // verus!

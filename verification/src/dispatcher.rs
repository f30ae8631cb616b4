//! Moves jobs along: slices uploaded models, starts the first queued job that can run, and
//! follows the running print to its end.

use vstd::prelude::*;

use crate::cc2::client::{CommandError, LinkState, PrinterSnapshot};
use crate::cc2::methods::{error_code, SlotMapEntry};
use crate::cc2::model::{self, printing_sub_status as sub, FileDetail, MachineState, StatusView};
use crate::cc2::upload::UploadError;
use crate::config::Nozzle;
use crate::gcode::GcodeInfo;
use crate::inventory::{self, Binding, Inventory};
use crate::jobs::{self, BlockReason, Job, JobError, JobState, JobTool, Jobs, StartContext};
use crate::schedule::Rule;
use crate::text;
use crate::zone::Zone;

verus! {

/// In seconds.
pub const TICK: u64 = 30;

/// In milliseconds. Status deltas arrive about once a second; there is no point deciding more
/// often.
pub const SETTLE: u64 = 500;

/// After a start the printer can report idle for a while before it reports printing, and a
/// job whose printing state was never seen (PrintHub restarted) only ends after this long.
pub const START_GRACE_SECS: i64 = 120;

/// Enough history to find a print that just ended, even with a few prints started elsewhere.
pub const HISTORY_PAGE: i64 = 10;

/// What the printer's history calls a print that came to its end.
pub const TASK_COMPLETED: i64 = 1;

// ---------------------------------------------------------------------------------------------
// Readiness
// ---------------------------------------------------------------------------------------------

/// Everything `jobs::check_start` needs besides the job, loaded once for a pass over the queue.
#[derive(Debug)]
pub struct Readiness {
    pub snapshot: PrinterSnapshot,
    pub bindings: Vec<Binding>,
    pub bed_clear: bool,
    pub nozzle: Nozzle,
    pub rules: Vec<Rule>,
    pub other_job_active: bool,
}

/// Whether a job is being sent to the printer, or printed.
pub open spec fn is_active(job: Job) -> bool {
    job.state == JobState::Printing || job.state == JobState::Uploading
}

impl Readiness {
    /// The rules' times are times of the day.
    pub open spec fn well_formed(self) -> bool {
        forall|i: int| 0 <= i < self.rules@.len() ==> (#[trigger] self.rules@[i]).on_the_clock()
    }

    pub open spec fn context<'a>(&'a self, tz: &'a Zone, estimate_margin: u64, now: i64) -> StartContext<
        'a,
    > {
        StartContext {
            snapshot: &self.snapshot,
            bindings: &self.bindings,
            bed_clear: self.bed_clear,
            nozzle: self.nozzle,
            other_job_active: self.other_job_active,
            rules: &self.rules,
            now,
            tz,
            estimate_margin,
        }
    }

    pub fn load(
        db: &Jobs,
        rules: Vec<Rule>,
        snapshot: PrinterSnapshot,
        bindings: Vec<Binding>,
        nozzle: Nozzle,
    ) -> (r: Readiness)
        ensures
            r.snapshot == snapshot,
            r.bindings == bindings,
            r.bed_clear == db.printer.bed_clear,
            r.nozzle == nozzle,
            r.rules == rules,
            r.other_job_active == exists|i: int|
                0 <= i < db.jobs@.len() && is_active(#[trigger] db.jobs@[i]),
    {
        let mut other_job_active = false;
        let mut i: usize = 0;
        while i < db.jobs.len()
            invariant
                i <= db.jobs@.len(),
                other_job_active == exists|k: int|
                    0 <= k < i && is_active(#[trigger] db.jobs@[k]),
            decreases db.jobs.len() - i,
        {
            if db.jobs[i].state == JobState::Printing || db.jobs[i].state == JobState::Uploading {
                assert(is_active(db.jobs@[i as int]));
                other_job_active = true;
            }
            i += 1;
        }
        Readiness {
            snapshot,
            bindings,
            bed_clear: jobs::bed_clear(db),
            nozzle,
            rules,
            other_job_active,
        }
    }

    /// The printer is connected and does something.
    pub open spec fn busy(self) -> bool {
        self.snapshot.link is Registered && self.snapshot.status is Some && model::machine_state(
            self.snapshot.status->0.machine_status.status,
        ) != MachineState::Idle
    }

    pub fn printer_busy(&self) -> (r: bool)
        ensures
            r == self.busy(),
    {
        match (&self.snapshot.link, &self.snapshot.status) {
            (LinkState::Registered, Some(status)) => status.machine_status.state()
                != MachineState::Idle,
            _ => false,
        }
    }

    pub fn check(
        &self,
        tz: &Zone,
        estimate_margin: u64,
        now: i64,
        job: &Job,
        tools: &[JobTool],
    ) -> (r: Result<Vec<SlotMapEntry>, BlockReason>)
        requires
            self.well_formed(),
            jobs::needed_in_all(tools@, tools@.len() as int) <= i64::MAX,
        ensures
            match r {
                Ok(map) => self.context(tz, estimate_margin, now).blocked(*job, tools@) is None
                    && map@ == jobs::slots(tools@, self.bindings@, tools@.len() as int),
                Err(reason) => self.context(tz, estimate_margin, now).blocked(*job, tools@) == Some(
                    reason,
                ),
            },
    {
        jobs::check_start(
            job,
            tools,
            &StartContext {
                snapshot: &self.snapshot,
                bindings: &self.bindings,
                bed_clear: self.bed_clear,
                nozzle: self.nozzle,
                other_job_active: self.other_job_active,
                rules: &self.rules,
                now,
                tz,
                estimate_margin,
            },
        )
    }
}

// ---------------------------------------------------------------------------------------------
// Restarts
// ---------------------------------------------------------------------------------------------

/// A job after a restart: a slice cannot resume, an upload can be retried.
pub open spec fn is_recovered(before: Job, after: Job, now: i64) -> bool {
    match before.state {
        JobState::Slicing => jobs::is_step(
            before,
            after,
            JobState::Failed,
            Some("PrintHub restarted while slicing. Upload the model again."@),
            0,
            now,
        ),
        JobState::Uploading => jobs::is_step(before, after, JobState::Queued, None, 0, now),
        _ => after == before,
    }
}

/// Jobs caught mid-step by a restart: a slice cannot resume, an upload can be retried.
pub fn recover(db: &mut Jobs, now: i64)
    requires
        old(db).well_formed(),
        jobs::last_position(old(db).jobs@) < i64::MAX,
    ensures
        final(db).well_formed(),
        final(db).tools@ == old(db).tools@,
        final(db).printer == old(db).printer,
        final(db).jobs@.len() == old(db).jobs@.len(),
        forall|i: int|
            0 <= i < final(db).jobs@.len() ==> is_recovered(
                old(db).jobs@[i],
                #[trigger] final(db).jobs@[i],
                now,
            ),
{
    let ghost before = db.jobs@;
    let mut i: usize = 0;
    while i < db.jobs.len()
        invariant
            i <= db.jobs@.len(),
            db.jobs@.len() == before.len(),
            db.well_formed(),
            db.tools@ == old(db).tools@,
            db.printer == old(db).printer,
            jobs::last_position(db.jobs@) == jobs::last_position(before),
            jobs::last_position(before) < i64::MAX,
            forall|k: int| 0 <= k < i ==> is_recovered(before[k], #[trigger] db.jobs@[k], now),
            forall|k: int| i <= k < before.len() ==> #[trigger] db.jobs@[k] == before[k],
        decreases db.jobs.len() - i,
    {
        let id: i64 = db.jobs[i].id;
        let ghost earlier = db.jobs@;
        proof {
            jobs::lemma_job_is(db.jobs@, id, 0, i as int);
        }
        if db.jobs[i].state == JobState::Slicing {
            let lost = "PrintHub restarted while slicing. Upload the model again.".to_string();
            let moved = jobs::transition(
                db,
                id,
                JobState::Slicing,
                JobState::Failed,
                Some(lost),
                now,
            );
            proof {
                jobs::lemma_last_position_update(earlier, i as int, db.jobs@[i as int]);
            }
        } else if db.jobs[i].state == JobState::Uploading {
            let moved = jobs::transition(
                db,
                id,
                JobState::Uploading,
                JobState::Queued,
                None,
                now,
            );
            proof {
                jobs::lemma_last_position_update(earlier, i as int, db.jobs@[i as int]);
            }
        }
        i += 1;
    }
}

/// After a restart no job waits for a step that nobody takes any more.
pub proof fn nothing_hangs_after_a_restart(before: Job, after: Job, now: i64)
    requires
        is_recovered(before, after, now),
    ensures
        after.state != JobState::Slicing,
        after.state != JobState::Uploading,
{
}

// ---------------------------------------------------------------------------------------------
// Starting
// ---------------------------------------------------------------------------------------------

/// Whether a reason keeps every job from starting.
pub open spec fn blocks_all(reason: BlockReason) -> bool {
    match reason {
        BlockReason::PrinterOffline => true,
        BlockReason::AnotherJobActive => true,
        BlockReason::PrinterBusy => true,
        BlockReason::BedNotClear => true,
        _ => false,
    }
}

/// The first job from position `i` on that can start.
pub open spec fn startable(
    ctx: StartContext,
    queued: Seq<Job>,
    tools: Seq<Seq<JobTool>>,
    i: int,
) -> Option<int>
    decreases queued.len() - i,
{
    if i < 0 || i >= queued.len() {
        None
    } else {
        match ctx.blocked(queued[i], tools[i]) {
            None => Some(i),
            Some(reason) => if blocks_all(reason) {
                None
            } else {
                startable(ctx, queued, tools, i + 1)
            },
        }
    }
}

pub open spec fn tool_lists(tools: Seq<Vec<JobTool>>) -> Seq<Seq<JobTool>> {
    tools.map_values(|list: Vec<JobTool>| list@)
}

/// The first queued job that can start, with its trays.
pub fn next_start(
    readiness: &Readiness,
    tz: &Zone,
    estimate_margin: u64,
    now: i64,
    queued: &Vec<Job>,
    tools: &Vec<Vec<JobTool>>,
) -> (r: Option<(usize, Vec<SlotMapEntry>)>)
    requires
        readiness.well_formed(),
        queued@.len() == tools@.len(),
        forall|i: int|
            0 <= i < tools@.len() ==> jobs::needed_in_all(
                (#[trigger] tools@[i])@,
                tools@[i]@.len() as int,
            ) <= i64::MAX,
    ensures
        match (
            r,
            startable(
                readiness.context(tz, estimate_margin, now),
                queued@,
                tool_lists(tools@),
                0,
            ),
        ) {
            (Some((i, map)), Some(shown)) => i == shown && i < queued@.len() && map@ == jobs::slots(
                tools@[i as int]@,
                readiness.bindings@,
                tools@[i as int]@.len() as int,
            ),
            (None, None) => true,
            _ => false,
        },
        r matches Some((i, _)) ==> {
            &&& i < queued@.len()
            &&& readiness.context(tz, estimate_margin, now).blocked(
                queued@[i as int],
                tools@[i as int]@,
            ) is None
            &&& forall|k: int|
                0 <= k < i ==> readiness.context(tz, estimate_margin, now).blocked(
                    #[trigger] queued@[k],
                    tools@[k]@,
                ) is Some
        },
        r is None ==> forall|k: int|
            0 <= k < queued@.len() ==> readiness.context(tz, estimate_margin, now).blocked(
                #[trigger] queued@[k],
                tools@[k]@,
            ) is Some,
{
    let ghost ctx = readiness.context(tz, estimate_margin, now);
    let ghost lists = tool_lists(tools@);
    proof {
        lemma_first_start(ctx, queued@, tools@);
    }
    let mut i: usize = 0;
    while i < queued.len()
        invariant
            i <= queued@.len(),
            queued@.len() == tools@.len(),
            readiness.well_formed(),
            ctx == readiness.context(tz, estimate_margin, now),
            lists == tool_lists(tools@),
            forall|k: int|
                0 <= k < tools@.len() ==> jobs::needed_in_all(
                    (#[trigger] tools@[k])@,
                    tools@[k]@.len() as int,
                ) <= i64::MAX,
            startable(ctx, queued@, lists, 0) == startable(ctx, queued@, lists, i as int),
        decreases queued.len() - i,
    {
        assert(lists[i as int] == tools@[i as int]@);
        match readiness.check(tz, estimate_margin, now, &queued[i], tools[i].as_slice()) {
            Ok(map) => {
                proof {
                    lemma_first_start(ctx, queued@, tools@);
                }
                return Some((i, map));
            },
            Err(reason) => {
                let stop = match reason {
                    BlockReason::PrinterOffline => true,
                    BlockReason::AnotherJobActive => true,
                    BlockReason::PrinterBusy => true,
                    BlockReason::BedNotClear => true,
                    _ => false,
                };
                if stop {
                    proof {
                        lemma_first_start(ctx, queued@, tools@);
                    }
                    return None;
                }
            },
        }
        i += 1;
    }
    None
}

/// The job that starts is the first in the queue that nothing keeps from starting.
pub proof fn the_first_that_can_start_starts(
    ctx: StartContext,
    queued: Seq<Job>,
    tools: Seq<Seq<JobTool>>,
    from: int,
)
    requires
        0 <= from,
    ensures
        startable(ctx, queued, tools, from) matches Some(i) ==> {
            &&& from <= i < queued.len()
            &&& ctx.blocked(queued[i], tools[i]) is None
            &&& forall|k: int|
                from <= k < i ==> ctx.blocked(#[trigger] queued[k], tools[k]) is Some
        },
    decreases queued.len() - from,
{
    if from < queued.len() && ctx.blocked(queued[from], tools[from]) is Some {
        the_first_that_can_start_starts(ctx, queued, tools, from + 1);
    }
}

/// Why a print did not start. `Retry` is worth retrying: the job keeps its place in the queue.
#[derive(Debug, PartialEq, Eq)]
pub enum StartError {
    Retry(String),
    Fatal(String),
}

impl StartError {
    pub open spec fn text(self) -> Seq<char> {
        match self {
            StartError::Retry(message) => message@,
            StartError::Fatal(message) => message@,
        }
    }

    /// Without a connection to the printer.
    pub fn not_connected() -> (r: StartError)
        ensures
            r is Retry,
            r.text() == "The printer is not connected."@,
    {
        StartError::Retry("The printer is not connected.".to_string())
    }

    pub fn missing_file(err: &str) -> (r: StartError)
        ensures
            r is Fatal,
            r.text() == "The G-code file is missing: "@ + err@,
    {
        let mut out = "The G-code file is missing: ".to_string();
        out.append(err);
        StartError::Fatal(out)
    }

    pub fn upload_failed(err: &UploadError) -> (r: StartError)
        ensures
            r is Retry <==> (err is Busy || err is Http),
            r.text() == (if err is Busy || err is Http {
                "Sending the file failed: "@
            } else {
                "The printer refused the file: "@
            }) + err.text(),
    {
        let retry = match err {
            UploadError::Busy => true,
            UploadError::Http(_) => true,
            _ => false,
        };
        if retry {
            let mut out = "Sending the file failed: ".to_string();
            out.append(err.message().as_str());
            StartError::Retry(out)
        } else {
            let mut out = "The printer refused the file: ".to_string();
            out.append(err.message().as_str());
            StartError::Fatal(out)
        }
    }
}

pub fn command_error(context: &str, err: &CommandError) -> (r: StartError)
    ensures
        r is Fatal <==> (err is Printer && err->Printer_code != error_code::PRINTER_BUSY),
        r.text() == context@ + ": "@ + err.text(),
{
    let mut message = context.to_string();
    message.append(": ");
    message.append(err.message().as_str());
    match err.printer_code() {
        Some(code) => if code == error_code::PRINTER_BUSY {
            StartError::Retry(message)
        } else {
            StartError::Fatal(message)
        },
        None => StartError::Retry(message),
    }
}

/// Takes a job out of the queue to send it to the printer. Says whether it still was in the
/// queue: it may have been cancelled meanwhile.
pub fn begin(db: &mut Jobs, id: i64, now: i64) -> (r: bool)
    requires
        jobs::last_position(old(db).jobs@) < i64::MAX,
    ensures
        old(db).well_formed() ==> final(db).well_formed(),
        final(db).tools@ == old(db).tools@,
        final(db).printer == old(db).printer,
        ({
            let before = old(db).jobs@;
            let i = jobs::job_at(before, id, 0);
            &&& r == (i < before.len() && before[i].state == JobState::Queued)
            &&& !r ==> final(db).jobs@ == before
            &&& r ==> jobs::one_stepped(
                before,
                final(db).jobs@,
                i,
                JobState::Uploading,
                Some(""@),
                now,
            )
        }),
{
    proof {
        jobs::lemma_job_at(db.jobs@, id, 0);
    }
    let moved = jobs::transition(
        db,
        id,
        JobState::Queued,
        JobState::Uploading,
        Some("".to_string()),
        now,
    );
    moved.is_ok()
}

/// Records how sending a job to the printer went. A job that started leaves the bed taken.
pub fn conclude(
    db: &mut Jobs,
    id: i64,
    slot_map: &[SlotMapEntry],
    sent: Result<(), StartError>,
    now: i64,
) -> (r: Result<(), JobError>)
    requires
        jobs::last_position(old(db).jobs@) < i64::MAX,
    ensures
        old(db).well_formed() ==> final(db).well_formed(),
        ({
            let before = old(db).jobs@;
            let after = final(db).jobs@;
            let i = jobs::job_at(before, id, 0);
            if i >= before.len() || before[i].state != JobState::Uploading {
                &&& r == Err::<(), JobError>(
                    JobError::StateChanged { expected: JobState::Uploading },
                )
                &&& after == before
                &&& final(db).tools@ == old(db).tools@
                &&& final(db).printer == old(db).printer
            } else {
                &&& r is Ok
                &&& match sent {
                    Ok(()) => is_started(*old(db), *final(db), i, slot_map@, now),
                    Err(StartError::Retry(message)) => jobs::one_stepped(
                        before,
                        after,
                        i,
                        JobState::Queued,
                        Some(message@),
                        now,
                    ) && final(db).tools@ == old(db).tools@ && final(db).printer == old(
                        db,
                    ).printer,
                    Err(StartError::Fatal(message)) => jobs::one_stepped(
                        before,
                        after,
                        i,
                        JobState::Failed,
                        Some(message@),
                        now,
                    ) && final(db).tools@ == old(db).tools@ && final(db).printer == old(
                        db,
                    ).printer,
                }
            }
        }),
{
    proof {
        jobs::lemma_job_at(db.jobs@, id, 0);
    }
    let ghost before = db.jobs@;
    let ghost i = jobs::job_at(before, id, 0);
    match sent {
        Ok(()) => {
            match jobs::transition(db, id, JobState::Uploading, JobState::Printing, None, now) {
                Err(err) => {
                    return Err(err);
                },
                Ok(()) => {},
            }
            proof {
                jobs::lemma_job_is(db.jobs@, id, 0, i);
            }
            jobs::record_start(db, id, slot_map, None);
            jobs::set_bed_clear(db, false, None, now);
            assert(db.jobs@ =~= before.update(i, db.jobs@[i]));
            Ok(())
        },
        Err(StartError::Retry(message)) => jobs::transition(
            db,
            id,
            JobState::Uploading,
            JobState::Queued,
            Some(message),
            now,
        ),
        Err(StartError::Fatal(message)) => jobs::transition(
            db,
            id,
            JobState::Uploading,
            JobState::Failed,
            Some(message),
            now,
        ),
    }
}

/// The tables after a job started: it prints from its trays, and the bed is taken.
pub open spec fn is_started(
    before: Jobs,
    after: Jobs,
    i: int,
    slot_map: Seq<SlotMapEntry>,
    now: i64,
) -> bool {
    let job = before.jobs@[i];
    &&& after.jobs@ == before.jobs@.update(
        i,
        Job { state: JobState::Printing, started_at: Some(now), progress: 0, ..job },
    )
    &&& after.tools@ == before.tools@.map_values(
        |row: jobs::ToolRow| jobs::with_tray(row, job.id, slot_map),
    )
    &&& after.printer == (jobs::PrinterRecord {
        bed_clear: false,
        bed_changed_by: None,
        bed_changed_at: Some(now),
        ..before.printer
    })
}

// ---------------------------------------------------------------------------------------------
// Following a print
// ---------------------------------------------------------------------------------------------

/// A print in the printer's history.
#[derive(Debug, PartialEq, Eq)]
pub struct HistoryTask {
    pub task_id: String,
    pub task_name: String,
    pub task_status: i64,
    pub end_time: i64,
}

/// Entries with the task id that was seen while a job printed.
pub open spec fn with_its_id(job: Job) -> spec_fn(HistoryTask) -> bool {
    |task: HistoryTask| job.printer_task_uuid matches Some(uuid) && uuid@ == task.task_id@
}

/// Entries with the name of a job's file.
pub open spec fn with_its_name(job: Job) -> spec_fn(HistoryTask) -> bool {
    |task: HistoryTask| task.task_name@ == job.file_on_printer()
}

/// The entry that ended last among those of the first `n` that `p` picks.
pub open spec fn latest_task(history: Seq<HistoryTask>, p: spec_fn(HistoryTask) -> bool, n: int) -> Option<
    int,
>
    decreases n,
{
    if n <= 0 {
        None
    } else {
        let before = latest_task(history, p, n - 1);
        if !p(history[n - 1]) {
            before
        } else {
            match before {
                Some(i) if history[i].end_time > history[n - 1].end_time => Some(i),
                _ => Some(n - 1),
            }
        }
    }
}

/// The entry about a job's print: by the task id, or else by the name of the file.
pub open spec fn task_of(history: Seq<HistoryTask>, job: Job) -> Option<int> {
    match latest_task(history, with_its_id(job), history.len() as int) {
        Some(i) => Some(i),
        None => latest_task(history, with_its_name(job), history.len() as int),
    }
}

/// No two jobs are on the printer.
pub open spec fn one_at_a_time(jobs: Seq<Job>) -> bool {
    forall|i: int, j: int|
        0 <= i < j < jobs.len() ==> !(is_active(#[trigger] jobs[i]) && is_active(
            #[trigger] jobs[j],
        ))
}

/// Jobs go to the printer one at a time: one is sent only while none is there, and no other step
/// puts a job on the printer.
pub proof fn jobs_go_to_the_printer_one_at_a_time(
    before: Seq<Job>,
    after: Seq<Job>,
    i: int,
    to: JobState,
    error: Option<Seq<char>>,
    now: i64,
)
    requires
        one_at_a_time(before),
        jobs::one_stepped(before, after, i, to, error, now),
        before[i].state.leads_to(to),
        to == JobState::Uploading ==> forall|k: int|
            0 <= k < before.len() ==> !is_active(#[trigger] before[k]),
    ensures
        one_at_a_time(after),
{
    assert forall|a: int, b: int| 0 <= a < b < after.len() implies !(is_active(
        #[trigger] after[a],
    ) && is_active(#[trigger] after[b])) by {
        assert(a != i ==> after[a] == before[a]);
        assert(b != i ==> after[b] == before[b]);
        if to == JobState::Printing {
            assert(is_active(before[i]));
        }
    }
}

fn later(history: &Vec<HistoryTask>, latest: Option<usize>, i: usize) -> (r: Option<usize>)
    requires
        i < history@.len(),
        latest matches Some(k) ==> k < history@.len(),
    ensures
        r == match latest {
            Some(k) if history@[k as int].end_time > history@[i as int].end_time => Some(k),
            _ => Some(i),
        },
{
    match latest {
        Some(k) if history[k].end_time > history[i].end_time => Some(k),
        _ => Some(i),
    }
}

/// What the printer's history says about the job's print: its task status, by the task id seen
/// while it ran, or else by the file's name. `None` where it has no entry for it.
pub fn recorded_outcome(history: &Vec<HistoryTask>, job: &Job) -> (r: Option<i64>)
    ensures
        r == match task_of(history@, *job) {
            Some(i) => Some(history@[i].task_status),
            None => None,
        },
{
    let filename = job.printer_filename();
    let mut by_id: Option<usize> = None;
    let mut by_name: Option<usize> = None;
    let mut i: usize = 0;
    while i < history.len()
        invariant
            i <= history@.len(),
            filename@ == job.file_on_printer(),
            match (by_id, latest_task(history@, with_its_id(*job), i as int)) {
                (Some(k), Some(shown)) => k == shown && k < i,
                (None, None) => true,
                _ => false,
            },
            match (by_name, latest_task(history@, with_its_name(*job), i as int)) {
                (Some(k), Some(shown)) => k == shown && k < i,
                (None, None) => true,
                _ => false,
            },
        decreases history.len() - i,
    {
        let task = &history[i];
        let known = match &job.printer_task_uuid {
            Some(uuid) => text::same(uuid.as_str(), task.task_id.as_str()),
            None => false,
        };
        if known {
            by_id = later(history, by_id, i);
        }
        if text::same(task.task_name.as_str(), filename.as_str()) {
            by_name = later(history, by_name, i);
        }
        i += 1;
    }
    match (by_id, by_name) {
        (Some(k), _) => Some(history[k].task_status),
        (None, Some(k)) => Some(history[k].task_status),
        (None, None) => None,
    }
}

/// Where an entry has the task id that was seen, the name of the file counts for nothing.
pub proof fn task_ids_win_over_names(history: Seq<HistoryTask>, job: Job, i: int)
    requires
        0 <= i < history.len(),
        with_its_id(job)(history[i]),
    ensures
        task_of(history, job) matches Some(k) && 0 <= k < history.len() && with_its_id(job)(
            history[k],
        ) && history[k].end_time >= history[i].end_time,
{
    lemma_latest_task(history, with_its_id(job), history.len() as int, i);
}

proof fn lemma_latest_task(history: Seq<HistoryTask>, p: spec_fn(HistoryTask) -> bool, n: int, i: int)
    requires
        0 <= i < n <= history.len(),
        p(history[i]),
    ensures
        latest_task(history, p, n) matches Some(k) && 0 <= k < n && p(history[k])
            && history[k].end_time >= history[i].end_time,
    decreases n,
{
    if i < n - 1 {
        lemma_latest_task(history, p, n - 1, i);
    } else {
        lemma_latest_is_picked(history, p, n - 1);
    }
}

proof fn lemma_latest_is_picked(history: Seq<HistoryTask>, p: spec_fn(HistoryTask) -> bool, n: int)
    requires
        0 <= n <= history.len(),
    ensures
        latest_task(history, p, n) matches Some(k) ==> 0 <= k < n && p(history[k]),
    decreases n,
{
    if n > 0 {
        lemma_latest_is_picked(history, p, n - 1);
    }
}

/// What a status says about a job that prints.
#[derive(Debug, PartialEq, Eq)]
pub enum Follow {
    /// Nothing that can be acted on.
    Wait,
    /// It is printing: the progress and the task id, where they are news.
    Printing { progress: Option<i64>, task: Option<String> },
    /// It has ended so.
    Ended(JobState),
    /// It is over, and only the printer's history can tell how it ended.
    Unclear,
}

pub open spec fn is_follow(
    action: Follow,
    job: Job,
    snapshot: PrinterSnapshot,
    seen_printing: bool,
    now: i64,
) -> bool {
    if !(snapshot.link is Registered && snapshot.status is Some) {
        action == Follow::Wait
    } else {
        let status = snapshot.status->0;
        let machine = status.machine_status;
        let ours = status.print_status.filename@ == job.file_on_printer();
        let progress = if machine.progress < 0 {
            0
        } else if machine.progress > 100 {
            100
        } else {
            machine.progress
        };
        let long_ago = job.started_at matches Some(started) && now - started > START_GRACE_SECS;
        match model::machine_state(machine.status) {
            MachineState::Printing => if ours {
                match action {
                    Follow::Printing { progress: news, task } => {
                        &&& news == if progress != job.progress {
                            Some(progress)
                        } else {
                            None::<i64>
                        }
                        &&& if job.printer_task_uuid is None && status.print_status.uuid@.len()
                            > 0 {
                            task matches Some(uuid) && uuid@ == status.print_status.uuid@
                        } else {
                            task is None
                        }
                    },
                    _ => false,
                }
            } else {
                action == Follow::Wait
            },
            MachineState::Idle => if !seen_printing && !long_ago {
                action == Follow::Wait
            } else if machine.sub_status == sub::COMPLETED && ours {
                action == Follow::Ended(JobState::Done)
            } else if machine.sub_status == sub::STOPPED && ours {
                action == Follow::Ended(JobState::Cancelled)
            } else {
                action == Follow::Unclear
            },
            _ => action == Follow::Wait,
        }
    }
}

/// What the printer's status says about a job that prints. While disconnected the last status is
/// stale; wait rather than guess.
pub fn follow(job: &Job, snapshot: &PrinterSnapshot, seen_printing: bool, now: i64) -> (r: Follow)
    ensures
        is_follow(r, *job, *snapshot, seen_printing, now),
        r == Follow::Ended(JobState::Done) ==> snapshot.status is Some
            && snapshot.status->0.machine_status.sub_status == 2077
            && snapshot.status->0.print_status.filename@ == job.file_on_printer(),
        r == Follow::Ended(JobState::Cancelled) ==> snapshot.status is Some
            && snapshot.status->0.machine_status.sub_status == 2504
            && snapshot.status->0.print_status.filename@ == job.file_on_printer(),
        r is Ended ==> r == Follow::Ended(JobState::Done) || r == Follow::Ended(
            JobState::Cancelled,
        ),
{
    let status: &StatusView = match (&snapshot.link, &snapshot.status) {
        (LinkState::Registered, Some(status)) => status,
        _ => {
            return Follow::Wait;
        },
    };
    let filename = job.printer_filename();
    let ours = text::same(status.print_status.filename.as_str(), filename.as_str());
    let machine = &status.machine_status;
    match machine.state() {
        MachineState::Printing => {
            if !ours {
                return Follow::Wait;
            }
            let progress: i64 = if machine.progress < 0 {
                0
            } else if machine.progress > 100 {
                100
            } else {
                machine.progress
            };
            let news: Option<i64> = if progress != job.progress {
                Some(progress)
            } else {
                None
            };
            let task = if job.printer_task_uuid.is_none()
                && !status.print_status.uuid.as_str().is_empty() {
                Some(status.print_status.uuid.clone())
            } else {
                None
            };
            Follow::Printing { progress: news, task }
        },
        MachineState::Idle => {
            let long_ago = match job.started_at {
                Some(started) => now as i128 - started as i128 > START_GRACE_SECS as i128,
                None => false,
            };
            if !seen_printing && !long_ago {
                return Follow::Wait;
            }
            if machine.sub_status == sub::COMPLETED && ours {
                Follow::Ended(JobState::Done)
            } else if machine.sub_status == sub::STOPPED && ours {
                Follow::Ended(JobState::Cancelled)
            } else {
                Follow::Unclear
            }
        },
        _ => Follow::Wait,
    }
}

/// Firmware 02.01.00.00 goes to plain idle and clears the filename, so the print's own history
/// entry is the only thing left that says how it ended.
pub fn settle(recorded: Option<i64>) -> (r: (JobState, Option<&'static str>))
    ensures
        match recorded {
            Some(status) => if status == TASK_COMPLETED {
                r.0 == JobState::Done && r.1 is None
            } else {
                r.0 == JobState::Failed && r.1 is Some && r.1->0@
                    == "The printer's history says the print did not finish."@
            },
            None => r.0 == JobState::Failed && r.1 is Some && r.1->0@
                == "The printer stopped without finishing the print."@,
        },
{
    match recorded {
        Some(status) => if status == TASK_COMPLETED {
            (JobState::Done, None)
        } else {
            (JobState::Failed, Some("The printer's history says the print did not finish."))
        },
        None => (JobState::Failed, Some("The printer stopped without finishing the print.")),
    }
}

/// The progress at which a print ended.
pub open spec fn end_progress(outcome: JobState, job: Job) -> i64 {
    if outcome == JobState::Done {
        100
    } else {
        job.progress
    }
}

/// Records that a print ended. Whatever the outcome, something is on the bed until somebody says
/// otherwise.
pub fn end(
    db: &mut Jobs,
    inventory: &mut Inventory,
    job: &Job,
    outcome: JobState,
    error: Option<&'static str>,
    now: i64,
) -> (r: Result<(), JobError>)
    requires
        old(inventory).well_formed(),
        jobs::last_position(old(db).jobs@) < i64::MAX,
        jobs::chargeable(
            *old(inventory),
            jobs::charges(
                jobs::tools_of(old(db).tools@, job.id),
                outcome,
                end_progress(outcome, *job),
            ),
        ),
    ensures
        old(db).well_formed() ==> final(db).well_formed(),
        final(inventory).well_formed(),
        final(inventory).balances_with(*old(inventory)),
        final(inventory).bindings@ == old(inventory).bindings@,
        final(db).tools@ == old(db).tools@,
        ({
            let before = old(db).jobs@;
            let i = jobs::job_at(before, job.id, 0);
            let taken = jobs::charges(
                jobs::tools_of(old(db).tools@, job.id),
                outcome,
                end_progress(outcome, *job),
            );
            let allowed = JobState::Printing.leads_to(outcome) && i < before.len()
                && before[i].state == JobState::Printing && jobs::all_known(
                old(inventory).spools@,
                taken,
            );
            if allowed {
                let after = final(db).jobs@[i];
                &&& r is Ok
                &&& final(db).jobs@ == before.update(i, after)
                &&& jobs::is_step(
                    Job { progress: after.progress, ..before[i] },
                    after,
                    outcome,
                    match error {
                        Some(error) => Some(error@),
                        None => None,
                    },
                    jobs::last_position(before) + 1,
                    now,
                )
                &&& after.progress == end_progress(outcome, *job)
                &&& final(inventory).spools@ == jobs::deducted(old(inventory).spools@, taken)
                &&& jobs::charges_entered(
                    *old(inventory),
                    *final(inventory),
                    *job,
                    outcome,
                    taken,
                    now,
                )
                &&& final(db).printer == (jobs::PrinterRecord {
                    bed_clear: false,
                    bed_changed_by: None,
                    bed_changed_at: Some(now),
                    ..old(db).printer
                })
            } else {
                &&& r == Err::<(), JobError>(
                    if !JobState::Printing.leads_to(outcome) {
                        JobError::IllegalTransition { from: JobState::Printing, to: outcome }
                    } else if i >= before.len() || before[i].state != JobState::Printing {
                        JobError::StateChanged { expected: JobState::Printing }
                    } else {
                        JobError::Inventory(inventory::InventoryError::NotFound)
                    },
                )
                &&& final(db).jobs@ == before
                &&& final(db).printer == old(db).printer
                &&& final(inventory).spools@ == old(inventory).spools@
                &&& final(inventory).ledger@ == old(inventory).ledger@
            }
        }),
{
    proof {
        jobs::lemma_job_at(db.jobs@, job.id, 0);
    }
    let progress: i64 = if outcome == JobState::Done {
        100
    } else {
        job.progress
    };
    let said = match error {
        Some(error) => Some(error.to_string()),
        None => None,
    };
    match jobs::finish(db, inventory, job, outcome, progress, said, now) {
        Err(err) => Err(err),
        Ok(()) => {
            jobs::set_bed_clear(db, false, None, now);
            Ok(())
        },
    }
}

// ---------------------------------------------------------------------------------------------
// Layers
// ---------------------------------------------------------------------------------------------

/// What the printer said about the layers of a file.
#[derive(Debug, PartialEq, Eq)]
pub struct FileLayers {
    pub filename: String,
    pub layers: i64,
}

/// What is to be done about the layers of the file that prints.
#[derive(Debug, PartialEq, Eq)]
pub enum LayerStep {
    Keep,
    Forget,
    Ask(String),
}

/// The status stream reports `total_layer` 0, so the file's own metadata (1046) is where a
/// layer total comes from. Asked once per file, whoever started the print.
pub fn refresh_file_layers(snapshot: &PrinterSnapshot, known: &Option<FileLayers>) -> (r: LayerStep)
    ensures
        ({
            if !(snapshot.link is Registered && snapshot.status is Some) {
                r == LayerStep::Keep
            } else {
                let filename = snapshot.status->0.print_status.filename@;
                if filename.len() == 0 {
                    r == LayerStep::Forget
                } else if known matches Some(file) && file.filename@ == filename {
                    r == LayerStep::Keep
                } else {
                    r matches LayerStep::Ask(asked) && asked@ == filename
                }
            }
        }),
{
    let filename = match (&snapshot.link, &snapshot.status) {
        (LinkState::Registered, Some(status)) => status.print_status.filename.clone(),
        _ => {
            return LayerStep::Keep;
        },
    };
    if filename.as_str().is_empty() {
        return LayerStep::Forget;
    }
    if let Some(file) = known {
        if text::same(file.filename.as_str(), filename.as_str()) {
            return LayerStep::Keep;
        }
    }
    LayerStep::Ask(filename)
}

/// What the printer's answer about a file says of its layers.
pub fn file_layers(filename: String, detail: &FileDetail) -> (r: Option<FileLayers>)
    ensures
        match r {
            Some(file) => file.filename == filename && file.layers > 0 && detail.counted()
                == Some(file.layers),
            None => detail.counted() is None || detail.counted()->0 <= 0,
        },
{
    match detail.layers() {
        Some(layers) if layers > 0 => Some(FileLayers { filename, layers }),
        _ => None,
    }
}

/// The layer total for the printer card: what the printer says about the file it is printing,
/// falling back to the count read from the running job's own G-code. The live status carries
/// `total_layer` 0 on firmware 02.01.00.00, so neither is redundant: a print started elsewhere
/// has no job to ask.
pub fn layer_total(snapshot: &PrinterSnapshot, known: &Option<FileLayers>, job_layers: Option<i64>) -> (r:
    Option<i64>)
    ensures
        r == match snapshot.status {
            Some(status) if status.print_status.filename@.len() > 0 => match *known {
                Some(file) if file.filename@ == status.print_status.filename@ => Some(file.layers),
                _ => job_layers,
            },
            _ => None,
        },
{
    let status = match &snapshot.status {
        Some(status) => status,
        None => {
            return None;
        },
    };
    if status.print_status.filename.as_str().is_empty() {
        return None;
    }
    match known {
        Some(file) => if text::same(
            file.filename.as_str(),
            status.print_status.filename.as_str(),
        ) {
            Some(file.layers)
        } else {
            job_layers
        },
        None => job_layers,
    }
}

// ---------------------------------------------------------------------------------------------
// Slicing
// ---------------------------------------------------------------------------------------------

/// The filament that some tools use altogether.
pub open spec fn total_mg(tools: Seq<crate::gcode::ToolUse>) -> int
    decreases tools.len(),
{
    if tools.len() == 0 {
        0
    } else {
        total_mg(tools.drop_last()) + tools.last().mg
    }
}

/// Whether a file says that it uses filament.
pub fn uses_filament(info: &GcodeInfo) -> (r: bool)
    ensures
        r == (total_mg(info.tools@) > 0),
{
    let mut total: i128 = 0;
    let mut i: usize = 0;
    assert(info.tools@.take(0) =~= seq![]);
    while i < info.tools.len()
        invariant
            i <= info.tools@.len(),
            total == total_mg(info.tools@.take(i as int)),
            -0x8000_0000_0000_0000 * i <= total <= 0x7fff_ffff_ffff_ffff * i,
        decreases info.tools.len() - i,
    {
        assert(info.tools@.take(i + 1).drop_last() =~= info.tools@.take(i as int));
        assert(i as int <= 0xffff_ffff_ffff_ffff);
        total = total + info.tools[i].mg as i128;
        i += 1;
    }
    assert(info.tools@.take(i as int) =~= info.tools@);
    total > 0
}

/// What came of slicing a model: the G-code's own account of itself, or what went wrong.
pub fn slice_result(read: Result<GcodeInfo, String>) -> (r: Result<GcodeInfo, String>)
    ensures
        match read {
            Err(message) => r == Err::<GcodeInfo, String>(message),
            Ok(info) => if total_mg(info.tools@) > 0 {
                r == Ok::<GcodeInfo, String>(info)
            } else {
                r matches Err(message) && message@ == "The slicer reported no filament use."@
            },
        },
{
    match read {
        Err(message) => Err(message),
        Ok(info) => if uses_filament(&info) {
            Ok(info)
        } else {
            Err("The slicer reported no filament use.".to_string())
        },
    }
}

/// Records how slicing a model went, and moves the job on to confirmation. The job may have been
/// cancelled meanwhile, and then stays as it is.
pub fn slice_job(
    db: &mut Jobs,
    job_id: i64,
    read: Result<GcodeInfo, String>,
    spool_id: i64,
    now: i64,
)
    requires
        jobs::last_position(old(db).jobs@) < i64::MAX,
    ensures
        old(db).well_formed() ==> final(db).well_formed(),
        final(db).printer == old(db).printer,
        ({
            let before = old(db).jobs@;
            let after = final(db).jobs@;
            let i = jobs::job_at(before, job_id, 0);
            let slicing = i < before.len() && before[i].state == JobState::Slicing;
            match read {
                Ok(info) if total_mg(info.tools@) > 0 => {
                    &&& final(db).tools@ == old(db).tools@.filter(jobs::of_other_job(job_id))
                        + info.tools@.filter(crate::gcode::uses_filament()).map_values(
                        |tool: crate::gcode::ToolUse| jobs::needed_tool(
                            job_id,
                            tool,
                            Some(spool_id),
                        ),
                    )
                    &&& if i < before.len() {
                        after == before.update(i, sliced(before[i], info))
                    } else {
                        after == before
                    }
                },
                Ok(_) => final(db).tools@ == old(db).tools@ && if slicing {
                    jobs::one_stepped(
                        before,
                        after,
                        i,
                        JobState::Failed,
                        Some("The slicer reported no filament use."@),
                        now,
                    )
                } else {
                    after == before
                },
                Err(message) => final(db).tools@ == old(db).tools@ && if slicing {
                    jobs::one_stepped(before, after, i, JobState::Failed, Some(message@), now)
                } else {
                    after == before
                },
            }
        }),
{
    let ghost before = db.jobs@;
    let ghost i = jobs::job_at(before, job_id, 0);
    proof {
        jobs::lemma_job_at(before, job_id, 0);
    }
    match slice_result(read) {
        Ok(info) => {
            jobs::store_gcode_info(db, job_id, &info, Some(spool_id));
            proof {
                if i < before.len() {
                    jobs::lemma_job_is(db.jobs@, job_id, 0, i);
                    jobs::lemma_last_position_update(before, i, db.jobs@[i]);
                }
            }
            let moved = jobs::transition(
                db,
                job_id,
                JobState::Slicing,
                JobState::AwaitingConfirm,
                None,
                now,
            );
            proof {
                if i < before.len() {
                    assert(db.jobs@ =~= before.update(i, sliced(before[i], info)));
                }
            }
        },
        Err(message) => {
            let moved = jobs::transition(
                db,
                job_id,
                JobState::Slicing,
                JobState::Failed,
                Some(message),
                now,
            );
        },
    }
}

/// A job once its model is sliced: it waits for confirmation, unless it was cancelled meanwhile.
pub open spec fn sliced(job: Job, info: GcodeInfo) -> Job {
    Job {
        state: if job.state == JobState::Slicing {
            JobState::AwaitingConfirm
        } else {
            job.state
        },
        estimated_seconds: info.estimated_seconds,
        layers: info.layers,
        nozzle_um: crate::gcode::diameter_of(info.nozzle@),
        plate: if info.plate@.len() == 0 {
            None
        } else {
            Some(info.plate)
        },
        ..job
    }
}

/// A queue waits only where every job in it is kept from starting: what keeps one job waiting
/// holds up none behind it.
pub proof fn a_queue_waits_only_where_every_job_is_kept(
    ctx: StartContext,
    queued: Seq<Job>,
    tools: Seq<Seq<JobTool>>,
)
    ensures
        startable(ctx, queued, tools, 0) is None <==> forall|i: int|
            0 <= i < queued.len() ==> ctx.blocked(#[trigger] queued[i], tools[i]) is Some,
{
    the_first_that_can_start_starts(ctx, queued, tools, 0);
    if exists|i: int| 0 <= i < queued.len() && ctx.blocked(#[trigger] queued[i], tools[i]) is None {
        let i = choose|i: int|
            0 <= i < queued.len() && ctx.blocked(#[trigger] queued[i], tools[i]) is None;
        lemma_found_before(ctx, queued, tools, 0, i);
    }
}

proof fn lemma_found_before(
    ctx: StartContext,
    queued: Seq<Job>,
    tools: Seq<Seq<JobTool>>,
    from: int,
    i: int,
)
    requires
        0 <= from <= i < queued.len(),
        ctx.blocked(queued[i], tools[i]) is None,
    ensures
        startable(ctx, queued, tools, from) is Some,
    decreases i - from,
{
    if from < i && ctx.blocked(queued[from], tools[from]) is Some {
        jobs::reasons_are_the_first_that_hold(queued[from], tools[from], ctx);
        jobs::reasons_are_the_first_that_hold(queued[i], tools[i], ctx);
        jobs::a_job_can_start_exactly_when_all_is_ready(queued[i], tools[i], ctx);
        lemma_found_before(ctx, queued, tools, from + 1, i);
    }
}

/// A job that is kept from starting leaves the others where they are: taking it out of the queue
/// changes nothing about whether one starts.
pub proof fn a_job_that_waits_holds_up_nobody(
    ctx: StartContext,
    queued: Seq<Job>,
    tools: Seq<Seq<JobTool>>,
    i: int,
)
    requires
        0 <= i < queued.len(),
        queued.len() == tools.len(),
        ctx.blocked(queued[i], tools[i]) is Some,
    ensures
        startable(ctx, queued, tools, 0) is Some <==> startable(
            ctx,
            queued.remove(i),
            tools.remove(i),
            0,
        ) is Some,
{
    let (rest, theirs) = (queued.remove(i), tools.remove(i));
    a_queue_waits_only_where_every_job_is_kept(ctx, queued, tools);
    a_queue_waits_only_where_every_job_is_kept(ctx, rest, theirs);
    if startable(ctx, queued, tools, 0) is Some {
        the_first_that_can_start_starts(ctx, queued, tools, 0);
        let k = startable(ctx, queued, tools, 0)->0;
        let at = if k < i {
            k
        } else {
            k - 1
        };
        assert(rest[at] == queued[k] && theirs[at] == tools[k]);
    }
    if startable(ctx, rest, theirs, 0) is Some {
        the_first_that_can_start_starts(ctx, rest, theirs, 0);
        let k = startable(ctx, rest, theirs, 0)->0;
        let at = if k < i {
            k
        } else {
            k + 1
        };
        assert(queued[at] == rest[k] && tools[at] == theirs[k]);
    }
}

/// A print has ended only where the connected printer is idle and says so of the job's own file:
/// it was done where the printer says it completed (2077), and cancelled where the printer says
/// it was stopped (2504). Of an idle printer that says neither, the history has to tell.
pub proof fn a_print_ends_as_the_printer_says(
    action: Follow,
    job: Job,
    snapshot: PrinterSnapshot,
    seen_printing: bool,
    now: i64,
)
    requires
        is_follow(action, job, snapshot, seen_printing, now),
    ensures
        ({
            let heard = snapshot.link is Registered && snapshot.status is Some;
            let status = snapshot.status->0;
            let sub_status = status.machine_status.sub_status;
            let idle = heard && status.machine_status.status == 1;
            let ours = status.print_status.filename@ == job.file_on_printer();
            let over = seen_printing || job.started_at is Some && now - job.started_at->0 > 120;
            &&& action == Follow::Ended(JobState::Done) <==> idle && over && ours && sub_status
                == 2077
            &&& action == Follow::Ended(JobState::Cancelled) <==> idle && over && ours
                && sub_status == 2504
            &&& action is Ended ==> action->0 == JobState::Done || action->0 == JobState::Cancelled
            &&& action is Unclear <==> idle && over && !(ours && (sub_status == 2077 || sub_status
                == 2504))
        }),
{
}

/// While the connected printer prints the job's file, its progress is news where it differs from
/// what is known, kept between 0 and 100, and its task id where none is known. Anything else is
/// no news.
pub proof fn a_running_print_is_followed(
    action: Follow,
    job: Job,
    snapshot: PrinterSnapshot,
    seen_printing: bool,
    now: i64,
)
    requires
        is_follow(action, job, snapshot, seen_printing, now),
    ensures
        ({
            let heard = snapshot.link is Registered && snapshot.status is Some;
            let status = snapshot.status->0;
            let ours = status.print_status.filename@ == job.file_on_printer();
            let code = status.machine_status.status;
            let over = seen_printing || job.started_at is Some && now - job.started_at->0 > 120;
            &&& action is Printing <==> heard && code == 2 && ours
            &&& action is Wait <==> !heard || code == 2 && !ours || code == 1 && !over || code != 1
                && code != 2
            &&& action matches Follow::Printing { progress, task } ==> {
                &&& progress matches Some(p) ==> 0 <= p <= 100 && p != job.progress
                &&& 0 <= status.machine_status.progress <= 100 && status.machine_status.progress
                    != job.progress ==> progress == Some(status.machine_status.progress)
                &&& status.machine_status.progress == job.progress && 0 <= job.progress <= 100
                    ==> progress is None
                &&& status.machine_status.progress > 100 && job.progress != 100 ==> progress
                    == Some(100i64)
                &&& status.machine_status.progress < 0 && job.progress != 0 ==> progress == Some(
                    0i64,
                )
                &&& task matches Some(uuid) ==> job.printer_task_uuid is None && uuid@
                    == status.print_status.uuid@
                &&& job.printer_task_uuid is None && status.print_status.uuid@.len() > 0 ==> task
                    is Some
            }
        }),
{
}

/// The history's entry about a print is the one that ended last with the task id that was seen;
/// where none has it, the one that ended last with the name of the file.
pub proof fn the_history_is_read_by_id_and_then_by_name(history: Seq<HistoryTask>, job: Job, i: int)
    requires
        0 <= i < history.len(),
    ensures
        ({
            let by_id = job.printer_task_uuid is Some && job.printer_task_uuid->0@
                == history[i].task_id@;
            let by_name = history[i].task_name@ == job.file_on_printer();
            let nobody = forall|k: int|
                0 <= k < history.len() ==> !(job.printer_task_uuid is Some
                    && job.printer_task_uuid->0@ == (#[trigger] history[k]).task_id@);
            &&& by_id ==> (task_of(history, job) matches Some(k) && 0 <= k < history.len()
                && history[k].end_time >= history[i].end_time && job.printer_task_uuid->0@
                == history[k].task_id@)
            &&& nobody && by_name ==> (task_of(history, job) matches Some(k) && 0 <= k
                < history.len() && history[k].end_time >= history[i].end_time
                && history[k].task_name@ == job.file_on_printer())
        }),
{
    let n = history.len() as int;
    lemma_latest_is_picked(history, with_its_id(job), n);
    lemma_latest_is_picked(history, with_its_name(job), n);
    if with_its_id(job)(history[i]) {
        lemma_latest_task(history, with_its_id(job), n, i);
    }
    if with_its_name(job)(history[i]) {
        lemma_latest_task(history, with_its_name(job), n, i);
    }
}

/// Without an entry that has its task id or its file's name, the history says nothing of a print.
pub proof fn a_print_without_an_entry_is_not_recorded(history: Seq<HistoryTask>, job: Job)
    requires
        forall|k: int|
            0 <= k < history.len() ==> (#[trigger] history[k]).task_name@ != job.file_on_printer()
                && !(job.printer_task_uuid is Some && job.printer_task_uuid->0@
                == history[k].task_id@),
    ensures
        task_of(history, job) is None,
{
    let n = history.len() as int;
    lemma_latest_is_picked(history, with_its_id(job), n);
    lemma_latest_is_picked(history, with_its_name(job), n);
}

/// A print that is done has run to its end; any other has got as far as it was last seen.
pub proof fn only_a_finished_print_is_complete(outcome: JobState, job: Job)
    ensures
        outcome == JobState::Done ==> end_progress(outcome, job) == 100,
        outcome != JobState::Done ==> end_progress(outcome, job) == job.progress,
{
}

proof fn lemma_first_start(ctx: StartContext, queued: Seq<Job>, tools: Seq<Vec<JobTool>>)
    requires
        queued.len() == tools.len(),
    ensures
        match startable(ctx, queued, tool_lists(tools), 0) {
            Some(i) => {
                &&& 0 <= i < queued.len()
                &&& ctx.blocked(queued[i], tools[i]@) is None
                &&& forall|k: int|
                    0 <= k < i ==> ctx.blocked(#[trigger] queued[k], tools[k]@) is Some
            },
            None => forall|k: int|
                0 <= k < queued.len() ==> ctx.blocked(#[trigger] queued[k], tools[k]@) is Some,
        },
{
    let lists = tool_lists(tools);
    the_first_that_can_start_starts(ctx, queued, lists, 0);
    a_queue_waits_only_where_every_job_is_kept(ctx, queued, lists);
    assert forall|k: int| 0 <= k < queued.len() implies ctx.blocked(#[trigger] queued[k], lists[k])
        == ctx.blocked(queued[k], tools[k]@) by {}
}

/// A job that started prints: it has begun now, at nothing, the bed is taken until somebody says
/// otherwise, and no other job has changed.
pub proof fn a_start_takes_the_bed(
    before: Jobs,
    after: Jobs,
    i: int,
    slot_map: Seq<SlotMapEntry>,
    now: i64,
)
    requires
        is_started(before, after, i, slot_map, now),
        0 <= i < before.jobs@.len(),
    ensures
        after.jobs@[i].state == JobState::Printing,
        after.jobs@[i].started_at == Some(now),
        after.jobs@[i].progress == 0,
        after.jobs@[i].id == before.jobs@[i].id,
        after.jobs@[i].printer_task_uuid == before.jobs@[i].printer_task_uuid,
        after.jobs@[i].position == before.jobs@[i].position,
        forall|k: int|
            0 <= k < before.jobs@.len() && k != i ==> #[trigger] after.jobs@[k] == before.jobs@[k],
        after.jobs@.len() == before.jobs@.len(),
        !after.printer.bed_clear,
        after.printer.bed_changed_by is None,
        after.printer.bed_changed_at == Some(now),
        after.printer.nozzle == before.printer.nozzle,
{
}

/// After a restart a slice that was under way has failed, a job that was being sent is back in
/// its place in the queue, and any other is as it was.
pub proof fn a_restart_undoes_half_steps(before: Job, after: Job, now: i64)
    requires
        is_recovered(before, after, now),
    ensures
        before.state == JobState::Slicing ==> after.state == JobState::Failed && after.finished_at
            == Some(now) && after.error@
            == "PrintHub restarted while slicing. Upload the model again."@,
        before.state == JobState::Uploading ==> after.state == JobState::Queued && after.position
            == before.position && after.error == before.error && after.finished_at
            == before.finished_at,
        before.state != JobState::Slicing && before.state != JobState::Uploading ==> after
            == before,
        after.id == before.id,
{
}

} // verus!

//! What jobs keep on disk, for admins to see and delete.

use vstd::prelude::*;

use crate::jobs::{self, Job, Jobs};
use crate::num;
use crate::order;
use crate::text;
use crate::web::queue;
use crate::web::views;
use crate::zone::Zone;

verus! {

#[derive(Debug)]
pub struct StoragePage {
    pub rows: Vec<StoredRow>,
    pub total: String,
    pub notice: Option<&'static str>,
    pub error: Option<&'static str>,
}

#[derive(Debug, PartialEq, Eq)]
pub struct StoredRow {
    pub id: i64,
    /// `None` when the directory outlived its job.
    pub name: Option<String>,
    pub owner: String,
    pub state: &'static str,
    pub uploaded: String,
    pub age: String,
    pub size: String,
    pub preview: bool,
    /// Files of a job still in the queue or printing are not offered for deletion.
    pub removable: bool,
}

/// Outcomes are fixed codes, so a crafted link cannot put text of the sender's choosing on the
/// page.
#[derive(Debug, PartialEq, Eq)]
pub struct Outcome {
    pub done: Option<String>,
    pub problem: Option<String>,
}

impl Outcome {
    pub fn notice(&self) -> (r: Option<&'static str>)
        ensures
            queue::opt_str(r) == match self.done {
                Some(code) if code@ == "deleted"@ => Some("Files deleted."@),
                _ => None,
            },
    {
        match &self.done {
            Some(code) => if text::same(code.as_str(), "deleted") {
                Some("Files deleted.")
            } else {
                None
            },
            None => None,
        }
    }

    pub fn error(&self) -> (r: Option<&'static str>)
        ensures
            queue::opt_str(r) == match self.problem {
                Some(code) if code@ == "active"@ => Some(
                    "That job is still in the queue or printing, so its files stay."@,
                ),
                _ => None,
            },
    {
        match &self.problem {
            Some(code) => if text::same(code.as_str(), "active") {
                Some("That job is still in the queue or printing, so its files stay.")
            } else {
                None
            },
            None => None,
        }
    }
}

pub const KB: u64 = 1024;

pub const MB: u64 = 1_048_576;

pub const GB: u64 = 1_073_741_824;

/// A number of hundredths with two places behind the point.
pub open spec fn hundredths_text(n: nat) -> Seq<char> {
    text::decimal(n / 100) + "."@ + text::padded(n % 100)
}

/// A number of tenths with one place behind the point.
pub open spec fn tenths_text(n: nat) -> Seq<char> {
    text::decimal(n / 10) + "."@ + text::decimal(n % 10)
}

/// Binary units, as `MAX_UPLOAD_MB` counts them.
pub open spec fn size_text(bytes: nat) -> Seq<char> {
    let n = bytes as int;
    if bytes < KB {
        text::decimal(bytes) + " B"@
    } else if bytes < MB {
        text::decimal(num::rounded_even(n, KB as int) as nat) + " KB"@
    } else if bytes < GB {
        tenths_text(num::rounded_even(10 * n, MB as int) as nat) + " MB"@
    } else {
        hundredths_text(num::rounded_even(100 * n, GB as int) as nat) + " GB"@
    }
}

/// The whole number nearest to `n / d`; halves go to the even neighbour.
fn round_even(n: u128, d: u128) -> (r: u128)
    requires
        0 < d <= GB,
        n <= 0xffff_ffff_ffff_ffff_ffff_ffff,
    ensures
        r == num::rounded_even(n as int, d as int),
        r <= n + 1,
{
    let q: u128 = n / d;
    let rest: u128 = n % d;
    assert(q <= n) by (nonlinear_arith)
        requires
            q == n / d,
            d > 0,
    ;
    if 2 * rest < d || (2 * rest == d && q % 2 == 0) {
        q
    } else {
        q + 1
    }
}

/// The size of a directory, as it is shown.
pub fn size(bytes: u64) -> (r: String)
    ensures
        r@ == size_text(bytes as nat),
{
    large_size(bytes as u128)
}

fn large_size(bytes: u128) -> (r: String)
    requires
        bytes <= 0xff_ffff_ffff_ffff_ffff_ffff,
    ensures
        r@ == size_text(bytes as nat),
{
    let mut out = String::new();
    if bytes < KB as u128 {
        text::push_decimal_large(&mut out, bytes);
        out.append(" B");
    } else if bytes < MB as u128 {
        text::push_decimal_large(&mut out, round_even(bytes, KB as u128));
        out.append(" KB");
    } else if bytes < GB as u128 {
        let tenths: u128 = round_even(10 * bytes, MB as u128);
        text::push_decimal_large(&mut out, tenths / 10);
        out.append(".");
        text::push_decimal_large(&mut out, tenths % 10);
        out.append(" MB");
    } else {
        let hundredths: u128 = round_even(100 * bytes, GB as u128);
        text::push_decimal_large(&mut out, hundredths / 100);
        out.append(".");
        text::push_padded(&mut out, (hundredths % 100) as u64);
        out.append(" GB");
    }
    assert(out@ =~= size_text(bytes as nat));
    out
}

pub open spec fn age_text(seconds: int) -> Seq<char> {
    let days = num::truncated(seconds, 86_400);
    if days <= 0 {
        "today"@
    } else if days == 1 {
        "1 day"@
    } else {
        text::decimal_int(days) + " days"@
    }
}

/// How long ago a job was uploaded.
pub fn age(seconds: i64) -> (r: String)
    ensures
        r@ == age_text(seconds as int),
{
    if seconds < 86_400 {
        return "today".to_string();
    }
    let days: i64 = seconds / 86_400;
    if days == 1 {
        "1 day".to_string()
    } else {
        let mut out = text::decimal_int_string(days);
        out.append(" days");
        out
    }
}

/// What a job keeps on disk.
#[derive(Debug, Clone, Copy, PartialEq, Eq, Structural)]
pub struct Stored {
    pub id: i64,
    pub bytes: u64,
    pub has_preview: bool,
}

/// The largest first.
pub open spec fn largest_first() -> spec_fn(Stored, Stored) -> bool {
    |a: Stored, b: Stored| a.bytes > b.bytes || (a.bytes == b.bytes && a.id <= b.id)
}

pub open spec fn total_bytes(stored: Seq<Stored>) -> nat
    decreases stored.len(),
{
    if stored.len() == 0 {
        0
    } else {
        total_bytes(stored.drop_last()) + stored.last().bytes as nat
    }
}

impl StoredRow {
    pub open spec fn shows(self, stored: Stored, jobs: Seq<Job>, zone: Zone, now: i64) -> bool {
        let i = jobs::job_at(jobs, stored.id, 0);
        &&& self.id == stored.id
        &&& self.size@ == size_text(stored.bytes as nat)
        &&& if i < jobs.len() {
            let job = jobs[i];
            &&& text::opt_view(self.name) == Some(job.name@)
            &&& self.owner@ == queue::owner_text(job)
            &&& self.state@ == job.state.title()
            &&& self.uploaded@ == views::time_text(job.created_at as int, zone)
            &&& self.age@ == age_text(now - job.created_at)
            &&& self.preview == stored.has_preview
            &&& self.removable == job.state.ended()
        } else {
            &&& self.name is None
            &&& self.owner@ == ""@
            &&& self.state@ == ""@
            &&& self.uploaded@ == ""@
            &&& self.age@ == ""@
            &&& !self.preview
            &&& self.removable
        }
    }
}

fn stored_row(stored: &Stored, db: &Jobs, zone: &Zone, now: i64) -> (r: StoredRow)
    requires
        forall|i: int|
            0 <= i < db.jobs@.len() ==> i64::MIN <= now - (#[trigger] db.jobs@[i]).created_at
                <= i64::MAX,
    ensures
        r.shows(*stored, db.jobs@, *zone, now),
{
    proof {
        jobs::lemma_job_at(db.jobs@, stored.id, 0);
    }
    match jobs::get(db, stored.id) {
        Some(job) => StoredRow {
            id: stored.id,
            owner: match &job.owner {
                Some((_, name)) => name.clone(),
                None => "".to_string(),
            },
            state: job.state.label(),
            uploaded: views::format_time(job.created_at, zone),
            age: age(now - job.created_at),
            size: size(stored.bytes),
            preview: stored.has_preview,
            removable: job.state.is_finished(),
            name: Some(job.name),
        },
        None => StoredRow {
            id: stored.id,
            name: None,
            owner: "".to_string(),
            state: "",
            uploaded: "".to_string(),
            age: "".to_string(),
            size: size(stored.bytes),
            preview: false,
            removable: true,
        },
    }
}

/// What jobs keep on disk, the largest first.
pub fn storage_page(
    stored: Vec<Stored>,
    db: &Jobs,
    zone: &Zone,
    now: i64,
    outcome: &Outcome,
) -> (r: StoragePage)
    requires
        forall|i: int|
            0 <= i < db.jobs@.len() ==> i64::MIN <= now - (#[trigger] db.jobs@[i]).created_at
                <= i64::MAX,
        total_bytes(stored@) <= 0xff_ffff_ffff_ffff_ffff_ffff,
    ensures
        ({
            let sorted = order::sorted(stored@, largest_first());
            &&& r.rows@.len() == sorted.len()
            &&& forall|i: int|
                0 <= i < sorted.len() ==> (#[trigger] r.rows@[i]).shows(
                    sorted[i],
                    db.jobs@,
                    *zone,
                    now,
                )
            &&& r.total@ == size_text(total_bytes(stored@))
            &&& queue::opt_str(r.notice) == match outcome.done {
                Some(code) if code@ == "deleted"@ => Some("Files deleted."@),
                _ => None,
            }
            &&& queue::opt_str(r.error) == match outcome.problem {
                Some(code) if code@ == "active"@ => Some(
                    "That job is still in the queue or printing, so its files stay."@,
                ),
                _ => None,
            }
        }),
{
    let ghost all = stored@;
    let mut total: u128 = 0;
    let mut i: usize = 0;
    assert(all.take(0) =~= seq![]);
    while i < stored.len()
        invariant
            i <= stored@.len(),
            stored@ == all,
            total == total_bytes(all.take(i as int)),
            total_bytes(all) <= 0xff_ffff_ffff_ffff_ffff_ffff,
        decreases stored.len() - i,
    {
        proof {
            assert(all.take(i + 1).drop_last() =~= all.take(i as int));
            lemma_total_grows(all, i + 1);
        }
        total = total + stored[i].bytes as u128;
        i += 1;
    }
    assert(all.take(i as int) =~= all);
    let before = |a: &Stored, b: &Stored| -> (r: bool)
        ensures
            r == largest_first()(*a, *b),
        { a.bytes > b.bytes || (a.bytes == b.bytes && a.id <= b.id) };
    let sorted = order::sort_by(stored, before, Ghost(largest_first()));
    let mut rows: Vec<StoredRow> = Vec::new();
    let mut k: usize = 0;
    while k < sorted.len()
        invariant
            k <= sorted@.len(),
            rows@.len() == k,
            forall|j: int|
                0 <= j < db.jobs@.len() ==> i64::MIN <= now - (#[trigger] db.jobs@[j]).created_at
                    <= i64::MAX,
            forall|j: int|
                0 <= j < k ==> (#[trigger] rows@[j]).shows(sorted@[j], db.jobs@, *zone, now),
        decreases sorted.len() - k,
    {
        rows.push(stored_row(&sorted[k], db, zone, now));
        k += 1;
    }
    StoragePage { rows, total: large_size(total), notice: outcome.notice(), error: outcome.error() }
}

proof fn lemma_total_grows(stored: Seq<Stored>, i: int)
    requires
        0 <= i <= stored.len(),
    ensures
        total_bytes(stored.take(i)) <= total_bytes(stored),
    decreases stored.len() - i,
{
    if i < stored.len() {
        assert(stored.take(i + 1).drop_last() =~= stored.take(i));
        lemma_total_grows(stored, i + 1);
    } else {
        assert(stored.take(i) =~= stored);
    }
}

/// Whether the files of a job may be deleted, and where to go then. Those of a job still in the
/// queue or printing stay.
pub fn delete_files(db: &Jobs, id: i64) -> (r: (bool, &'static str))
    ensures
        ({
            let i = jobs::job_at(db.jobs@, id, 0);
            let active = i < db.jobs@.len() && !db.jobs@[i].state.ended();
            &&& r.0 == !active
            &&& r.1@ == if active {
                "/admin/storage?problem=active"@
            } else {
                "/admin/storage?done=deleted"@
            }
        }),
{
    match jobs::get(db, id) {
        Some(job) => if job.state.is_finished() {
            (true, "/admin/storage?done=deleted")
        } else {
            (false, "/admin/storage?problem=active")
        },
        None => (true, "/admin/storage?done=deleted"),
    }
}

/// What is stored adds up over the jobs.
pub proof fn stored_bytes_add_up(stored: Seq<Stored>, i: int)
    requires
        0 <= i < stored.len(),
    ensures
        total_bytes(stored) == total_bytes(stored.remove(i)) + stored[i].bytes,
        stored.len() == 1 ==> total_bytes(stored) == stored[0].bytes,
    decreases stored.len(),
{
    if i == stored.len() - 1 {
        assert(stored.remove(i) =~= stored.drop_last());
    } else {
        stored_bytes_add_up(stored.drop_last(), i);
        assert(stored.remove(i).drop_last() =~= stored.drop_last().remove(i));
        assert(stored.remove(i).last() == stored.last());
    }
    if stored.len() == 1 {
        assert(total_bytes(stored.drop_last()) == 0);
    }
}

/// What takes the most room comes first.
pub proof fn the_largest_comes_first(a: Stored, b: Stored)
    ensures
        a.bytes > b.bytes ==> largest_first()(a, b) && !largest_first()(b, a),
        a.bytes == b.bytes && a.id < b.id ==> largest_first()(a, b) && !largest_first()(b, a),
{
}

/// Sizes are given in the largest unit of 1024 that they reach, in whole kilobytes, tenths of a
/// megabyte or hundredths of a gigabyte, each to the nearest.
pub proof fn sizes_are_given_in_their_unit(bytes: nat)
    ensures
        bytes < 1024 ==> size_text(bytes) == text::decimal(bytes) + " B"@,
        1024 <= bytes < 1024 * 1024 ==> exists|n: nat|
            size_text(bytes) == #[trigger] text::decimal(n) + " KB"@ && 2 * bytes - 1024 <= 2048 * n
                <= 2 * bytes + 1024,
        1024 * 1024 <= bytes < 1024 * 1024 * 1024 ==> exists|n: nat|
            size_text(bytes) == #[trigger] tenths_text(n) + " MB"@ && 20 * bytes - 1_048_576
                <= 2_097_152 * n <= 20 * bytes + 1_048_576,
        bytes >= 1024 * 1024 * 1024 ==> exists|n: nat|
            size_text(bytes) == #[trigger] hundredths_text(n) + " GB"@ && 200 * bytes
                - 1_073_741_824 <= 2_147_483_648 * n <= 200 * bytes + 1_073_741_824,
{
    let n = bytes as int;
    num::rounding_to_even_misses_by_half_at_most(n, 1024);
    num::rounding_to_even_misses_by_half_at_most(10 * n, 1_048_576);
    num::rounding_to_even_misses_by_half_at_most(100 * n, 1_073_741_824);
    let a = num::rounded_even(n, 1024) as nat;
    let b = num::rounded_even(10 * n, 1_048_576) as nat;
    let c = num::rounded_even(100 * n, 1_073_741_824) as nat;
    if 1024 <= bytes < 1024 * 1024 {
        assert(size_text(bytes) == text::decimal(a) + " KB"@);
    } else if 1024 * 1024 <= bytes < 1024 * 1024 * 1024 {
        assert(size_text(bytes) == tenths_text(b) + " MB"@);
    } else if bytes >= 1024 * 1024 * 1024 {
        assert(size_text(bytes) == hundredths_text(c) + " GB"@);
    }
}

/// Ages are whole days that have passed.
pub proof fn ages_are_whole_days(days: int, part: int)
    requires
        0 <= part < 86_400,
    ensures
        days == 0 ==> age_text(86_400 * days + part) == "today"@,
        days == 1 ==> age_text(86_400 * days + part) == "1 day"@,
        days > 1 ==> age_text(86_400 * days + part) == text::decimal_int(days) + " days"@,
{
    if days >= 0 {
        assert((86_400 * days + part) / 86_400 == days);
    }
}

} // verus!

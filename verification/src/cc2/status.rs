//! Printer status cache. The CC2 answers `GET_STATUS` with a full frame, then pushes deltas
//! carrying only the fields that changed.

use vstd::prelude::*;

use crate::cc2::model::StatusView;
use crate::cc2::read;
use crate::json::{self, Json, Value};

pub use crate::json::deep_merge;

verus! {

/// Consecutive out-of-order deltas tolerated before the cache is presumed to have drifted.
pub const MAX_CONSECUTIVE_GAPS: u32 = 5;

#[derive(Debug, Clone, Copy, PartialEq, Eq, Structural)]
pub struct SequenceTracker {
    pub last: Option<u64>,
    pub consecutive_gaps: u32,
}

impl SequenceTracker {
    /// Whether `sequence` is the number that was due.
    pub open spec fn continues(self, sequence: u64) -> bool {
        match self.last {
            Some(last) => sequence == last + 1,
            None => true,
        }
    }

    /// Whether the run of gaps is long enough, with `sequence`, for a full status.
    pub open spec fn has_drifted(self, sequence: u64) -> bool {
        !self.continues(sequence) && self.consecutive_gaps + 1 >= MAX_CONSECUTIVE_GAPS
    }

    pub open spec fn after(self, sequence: u64) -> SequenceTracker {
        SequenceTracker {
            last: Some(sequence),
            consecutive_gaps: if self.continues(sequence) || self.has_drifted(sequence) {
                0
            } else {
                (self.consecutive_gaps + 1) as u32
            },
        }
    }

    pub fn reset(&mut self, sequence: Option<u64>)
        ensures
            *final(self) == (SequenceTracker { last: sequence, consecutive_gaps: 0 }),
    {
        self.last = sequence;
        self.consecutive_gaps = 0;
    }

    /// Returns `true` when the caller should re-request a full status.
    pub fn observe(&mut self, sequence: u64) -> (r: bool)
        ensures
            r == old(self).has_drifted(sequence),
            *final(self) == old(self).after(sequence),
    {
        let continuous = match self.last {
            Some(last) => last < u64::MAX && sequence == last + 1,
            None => true,
        };
        self.last = Some(sequence);
        if continuous {
            self.consecutive_gaps = 0;
            return false;
        }
        if self.consecutive_gaps >= MAX_CONSECUTIVE_GAPS - 1 {
            self.consecutive_gaps = 0;
            return true;
        }
        self.consecutive_gaps = self.consecutive_gaps + 1;
        false
    }
}

impl Default for SequenceTracker {
    fn default() -> (r: SequenceTracker)
        ensures
            r == (SequenceTracker { last: None, consecutive_gaps: 0 }),
    {
        SequenceTracker { last: None, consecutive_gaps: 0 }
    }
}

/// The tracker after a run of frames.
pub open spec fn after_frames(tracker: SequenceTracker, frames: Seq<u64>) -> SequenceTracker
    decreases frames.len(),
{
    if frames.len() == 0 {
        tracker
    } else {
        after_frames(tracker, frames.drop_last()).after(frames.last())
    }
}

/// Gap-free frames never ask for a full status, however many there are.
pub proof fn a_gap_free_run_asks_for_nothing(tracker: SequenceTracker, first: u64, n: nat)
    requires
        tracker.last == Some(first),
        first + n < u64::MAX,
    ensures
        ({
            let after = after_frames(tracker, Seq::new(n, |i: int| (first + 1 + i) as u64));
            after.last == Some((first + n) as u64) && !after.has_drifted((first + n + 1) as u64)
        }),
    decreases n,
{
    let frames = Seq::new(n, |i: int| (first + 1 + i) as u64);
    if n > 0 {
        let before = Seq::new((n - 1) as nat, |i: int| (first + 1 + i) as u64);
        a_gap_free_run_asks_for_nothing(tracker, first, (n - 1) as nat);
        assert(frames.drop_last() =~= before);
    }
}

/// Fewer gaps in a row than are tolerated ask for nothing, and the last tolerated one does.
pub proof fn a_run_of_gaps_asks_once(tracker: SequenceTracker, sequence: u64)
    requires
        tracker.consecutive_gaps < MAX_CONSECUTIVE_GAPS,
        !tracker.continues(sequence),
    ensures
        tracker.has_drifted(sequence) <==> tracker.consecutive_gaps == MAX_CONSECUTIVE_GAPS - 1,
        tracker.has_drifted(sequence) ==> tracker.after(sequence).consecutive_gaps == 0,
        !tracker.has_drifted(sequence) ==> tracker.after(sequence).consecutive_gaps
            == tracker.consecutive_gaps + 1,
        tracker.after(sequence).consecutive_gaps < MAX_CONSECUTIVE_GAPS,
{
}

pub open spec fn frame_number(envelope_id: Option<u64>, result: Value) -> Option<u64> {
    match result.get("sequence"@) {
        Some(sequence) => match json::number_u64(sequence) {
            Some(number) => Some(number),
            None => envelope_id,
        },
        None => envelope_id,
    }
}

/// The frame number of a status message. The Home Assistant client, which runs against real
/// printers, tracks `result.sequence`; the protocol doc describes the envelope `id` instead.
pub fn sequence_of(envelope_id: Option<u64>, result: &Json) -> (r: Option<u64>)
    ensures
        r == frame_number(envelope_id, result.value()),
{
    match result.get("sequence") {
        Some(sequence) => match sequence.as_u64() {
            Some(number) => Some(number),
            None => envelope_id,
        },
        None => envelope_id,
    }
}

#[derive(Debug, PartialEq, Eq)]
pub struct StatusCache {
    raw: Json,
    sequence: SequenceTracker,
    has_full_frame: bool,
}

impl Default for StatusCache {
    fn default() -> (r: StatusCache)
        ensures
            r.content() == Value::Object(seq![]),
            r.tracker() == (SequenceTracker { last: None, consecutive_gaps: 0 }),
            !r.is_full(),
    {
        let cache = StatusCache {
            raw: Json::Object(Vec::new()),
            sequence: SequenceTracker::default(),
            has_full_frame: false,
        };
        cache
    }
}

impl StatusCache {
    /// What the printer has said, merged.
    pub closed spec fn content(self) -> Value {
        self.raw.value()
    }

    pub closed spec fn tracker(self) -> SequenceTracker {
        self.sequence
    }

    pub closed spec fn is_full(self) -> bool {
        self.has_full_frame
    }

    pub fn apply_full(&mut self, envelope_id: Option<u64>, result: Json)
        ensures
            final(self).content() == if result.value() is Object {
                result.value()
            } else {
                Value::Object(seq![])
            },
            final(self).tracker() == (SequenceTracker {
                last: frame_number(envelope_id, result.value()),
                consecutive_gaps: 0,
            }),
            final(self).is_full(),
    {
        self.sequence.reset(sequence_of(envelope_id, &result));
        self.raw = if result.is_object() {
            result
        } else {
            Json::Object(Vec::new())
        };
        self.has_full_frame = true;
    }

    /// Returns `true` when the caller should re-request a full status: either no full frame
    /// has arrived yet, or deltas have been going missing.
    pub fn apply_delta(&mut self, envelope_id: Option<u64>, result: Json) -> (r: bool)
        ensures
            final(self).content() == json::merged(old(self).content(), result.value()),
            final(self).is_full() == old(self).is_full(),
            match frame_number(envelope_id, result.value()) {
                Some(number) => {
                    &&& final(self).tracker() == old(self).tracker().after(number)
                    &&& r == (old(self).tracker().has_drifted(number) || !old(self).is_full())
                },
                None => {
                    &&& final(self).tracker() == old(self).tracker()
                    &&& r == !old(self).is_full()
                },
            },
    {
        let gap = match sequence_of(envelope_id, &result) {
            Some(number) => self.sequence.observe(number),
            None => false,
        };
        deep_merge(&mut self.raw, result);
        gap || !self.has_full_frame
    }

    pub fn has_full_frame(&self) -> (r: bool)
        ensures
            r == self.is_full(),
    {
        self.has_full_frame
    }

    pub fn raw(&self) -> (r: &Json)
        ensures
            r.value() == self.content(),
    {
        &self.raw
    }

    /// The status as far as it reads.
    pub fn view(&self) -> (r: Option<StatusView>)
        ensures
            match r {
                Some(view) => read::status_reads(self.content()) && view.shows(self.content()),
                None => !read::status_reads(self.content()),
            },
    {
        StatusView::read(&self.raw)
    }
}

/// A status is due its number where it follows the one before it, or where there was none. Five
/// that are not due, one right after another, ask for a full status; one that is due forgets the
/// ones before it.
pub proof fn the_fifth_gap_in_a_row_asks(tracker: SequenceTracker, sequence: u64)
    ensures
        ({
            let due = match tracker.last {
                Some(last) => sequence == last + 1,
                None => true,
            };
            &&& tracker.has_drifted(sequence) <==> !due && tracker.consecutive_gaps >= 4
            &&& tracker.after(sequence).last == Some(sequence)
            &&& due ==> tracker.after(sequence).consecutive_gaps == 0
            &&& !due && tracker.consecutive_gaps >= 4 ==> tracker.after(sequence).consecutive_gaps
                == 0
            &&& !due && tracker.consecutive_gaps < 4 ==> tracker.after(sequence).consecutive_gaps
                == tracker.consecutive_gaps + 1
        }),
{
}

/// A status is numbered by its own number, or else by that of its envelope.
pub proof fn a_status_is_numbered_by_itself_first(envelope_id: Option<u64>, result: Value)
    ensures
        result.get("sequence"@) matches Some(Value::Unsigned(n)) ==> frame_number(
            envelope_id,
            result,
        ) == Some(n),
        result.get("sequence"@) is None ==> frame_number(envelope_id, result) == envelope_id,
        result.get("sequence"@) matches Some(Value::Text(_)) ==> frame_number(envelope_id, result)
            == envelope_id,
{
}

} // verus!

//! A time zone: between instants, in seconds since 1970-01-01 00:00 UTC, and local dates and
//! times.

use jiff::tz::TimeZone;
use jiff::Timestamp;
use vstd::prelude::*;

use crate::calendar::Date;

verus! {

/// The instants that the calendar reaches in every zone.
pub const FIRST_SECOND: i64 = -377_705_023_201;

pub const LAST_SECOND: i64 = 253_402_207_200;

/// Whether `jiff::tz::TimeZone::tzif` accepts the data of a zone.
pub uninterp spec fn zone_reads(data: Seq<u8>) -> bool;

/// Year, month and day that `jiff::Timestamp::to_zoned` gives an instant in a zone.
pub uninterp spec fn zone_date(data: Seq<u8>, unix: int) -> (int, int, int);

/// The instant that `jiff::civil::DateTime::to_zoned` gives a local date, hour and minute in a
/// zone.
pub uninterp spec fn zone_instant(
    data: Seq<u8>,
    date: (int, int, int),
    hour: int,
    minute: int,
) -> Option<int>;

/// Hour and minute that `jiff::Timestamp::to_zoned` gives an instant in a zone.
pub uninterp spec fn zone_time(data: Seq<u8>, unix: int) -> (int, int);

/// Calls `jiff::tz::TimeZone::tzif`, which reads a zone's TZif data; the result says whether it
/// succeeds, which depends on the data alone.
#[verifier::external_body]
fn tzif_reads(data: &[u8]) -> (r: bool)
    ensures
        r == zone_reads(data@),
{
    TimeZone::tzif("", data).is_ok()
}

/// Calls `jiff::Timestamp::to_zoned` in the zone that the data describe. The date depends on the
/// data and the instant alone, and lies between the years -9999 and 9999, as every
/// `jiff::civil::Date` does. The seconds are those that `jiff::Timestamp` accepts.
#[verifier::external_body]
fn timestamp_to_date(data: &[u8], unix: i64) -> (r: Date)
    requires
        zone_reads(data@),
        FIRST_SECOND <= unix <= LAST_SECOND,
    ensures
        (r.year as int, r.month as int, r.day as int) == zone_date(data@, unix as int),
        r.valid(),
{
    let tz = TimeZone::tzif("", data).expect("zone data that read before");
    let date = Timestamp::from_second(unix).expect("an instant in range").to_zoned(tz).date();
    Date { year: date.year(), month: date.month() as u8, day: date.day() as u8 }
}

/// Calls `jiff::Timestamp::to_zoned` in the zone that the data describe, for the hour and minute.
/// They depend on the data and the instant alone, and are those of a 24-hour clock.
#[verifier::external_body]
fn timestamp_to_time(data: &[u8], unix: i64) -> (r: (u8, u8))
    requires
        zone_reads(data@),
        FIRST_SECOND <= unix <= LAST_SECOND,
    ensures
        (r.0 as int, r.1 as int) == zone_time(data@, unix as int),
        r.0 < 24,
        r.1 < 60,
{
    let tz = TimeZone::tzif("", data).expect("zone data that read before");
    let time = Timestamp::from_second(unix).expect("an instant in range").to_zoned(tz).time();
    (time.hour() as u8, time.minute() as u8)
}

/// Calls `jiff::civil::DateTime::to_zoned` for a local time on a full minute. The instant
/// depends on the data, the date and the time alone; there is none where it would lie beyond
/// what `jiff::Timestamp` holds.
#[verifier::external_body]
fn civil_to_timestamp(data: &[u8], date: Date, hour: u8, minute: u8) -> (r: Option<i64>)
    requires
        zone_reads(data@),
        date.valid(),
        hour < 24,
        minute < 60,
    ensures
        r matches Some(unix) ==> zone_instant(
            data@,
            (date.year as int, date.month as int, date.day as int),
            hour as int,
            minute as int,
        ) == Some(unix as int),
        r is None ==> zone_instant(
            data@,
            (date.year as int, date.month as int, date.day as int),
            hour as int,
            minute as int,
        ) is None,
{
    let tz = TimeZone::tzif("", data).expect("zone data that read before");
    let day = jiff::civil::date(date.year, date.month as i8, date.day as i8);
    let zoned = day.at(hour as i8, minute as i8, 0, 0).to_zoned(tz);
    zoned.ok().map(|zoned| zoned.timestamp().as_second())
}

/// A zone by its name, with the TZif data that describe it.
#[derive(Debug)]
pub struct Zone {
    name: String,
    data: Vec<u8>,
}

impl Clone for Zone {
    fn clone(&self) -> (r: Zone)
        ensures
            r.name() == self.name(),
            r.data() == self.data(),
    {
        proof {
            use_type_invariant(self);
        }
        let data = self.data.clone();
        assert(data@ =~= self.data@);
        Zone { name: self.name.clone(), data }
    }
}

impl Zone {
    pub closed spec fn name(self) -> Seq<char> {
        self.name@
    }

    pub closed spec fn data(self) -> Seq<u8> {
        self.data@
    }

    #[verifier::type_invariant]
    spec fn readable(self) -> bool {
        zone_reads(self.data@)
    }

    /// The local date of an instant. Instants that the calendar does not reach count as
    /// 1970-01-01 00:00 UTC.
    pub open spec fn date_at(self, unix: int) -> Date {
        let (year, month, day) = zone_date(
            self.data(),
            if FIRST_SECOND <= unix <= LAST_SECOND { unix } else { 0 },
        );
        Date { year: year as i16, month: month as u8, day: day as u8 }
    }

    /// The local hour and minute of an instant, where the calendar reaches it.
    pub open spec fn time_at(self, unix: int) -> (int, int) {
        zone_time(self.data(), if FIRST_SECOND <= unix <= LAST_SECOND { unix } else { 0 })
    }

    /// The instant of a local time, in minutes after midnight. A time that a change of the clock
    /// skips counts as if the clock had not been changed; one that occurs twice counts as the
    /// first.
    pub open spec fn instant_at(self, date: Date, minute: int) -> Option<int> {
        zone_instant(
            self.data(),
            (date.year as int, date.month as int, date.day as int),
            minute / 60,
            minute % 60,
        )
    }

    /// `None` where the data are no valid TZif.
    pub fn new(name: String, data: Vec<u8>) -> (r: Option<Zone>)
        ensures
            r is Some <==> zone_reads(data@),
            r matches Some(zone) ==> zone.name() == name@ && zone.data() == data@,
    {
        if tzif_reads(data.as_slice()) {
            Some(Zone { name, data })
        } else {
            None
        }
    }

    pub fn id(&self) -> (r: &str)
        ensures
            r@ == self.name(),
    {
        self.name.as_str()
    }

    pub fn date(&self, unix: i64) -> (r: Date)
        ensures
            r == self.date_at(unix as int),
            r.valid(),
    {
        proof {
            use_type_invariant(self);
        }
        if unix < FIRST_SECOND || unix > LAST_SECOND {
            timestamp_to_date(self.data.as_slice(), 0)
        } else {
            timestamp_to_date(self.data.as_slice(), unix)
        }
    }

    /// The local hour and minute of an instant.
    pub fn time(&self, unix: i64) -> (r: (u8, u8))
        ensures
            (r.0 as int, r.1 as int) == self.time_at(unix as int),
            r.0 < 24,
            r.1 < 60,
    {
        proof {
            use_type_invariant(self);
        }
        if unix < FIRST_SECOND || unix > LAST_SECOND {
            timestamp_to_time(self.data.as_slice(), 0)
        } else {
            timestamp_to_time(self.data.as_slice(), unix)
        }
    }

    pub fn instant(&self, date: Date, minute: u16) -> (r: Option<i64>)
        requires
            date.valid(),
            minute < 1440,
        ensures
            r matches Some(unix) ==> self.instant_at(date, minute as int) == Some(unix as int),
            r is None ==> self.instant_at(date, minute as int) is None,
    {
        proof {
            use_type_invariant(self);
        }
        civil_to_timestamp(self.data.as_slice(), date, (minute / 60) as u8, (minute % 60) as u8)
    }
}

} // verus!

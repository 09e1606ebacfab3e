//! Conversions between the counts of time that the logs hold and
//! timestamps: ticks of 100 ns since the year 1, and milliseconds since 1970.

use vstd::prelude::*;
use crate::model::Timestamp;

verus! {

/// Ticks of 100 ns from 0001-01-01 00:00:00 to 1970-01-01 00:00:00.
pub const ZERO_OFFSET_100NS: u64 = 621_355_968_000_000_000;

/// Seconds from 0001-01-01 00:00:00 to 1970-01-01 00:00:00.
pub const ZERO_OFFSET_1SEC: i64 = 62_135_596_800;

/// Ticks of 100 ns in one second.
pub const TICKS_PER_SECOND: u64 = 10_000_000;

/// Nanoseconds in one tick.
pub const NANOS_PER_TICK: u32 = 100;

/// The earliest second that the calendar library can represent
/// (-262143-01-01 00:00:00).
pub const MIN_CALENDAR_SECS: i64 = -8_334_601_228_800;

/// The latest second that the calendar library can represent
/// (262142-12-31 23:59:59).
pub const MAX_CALENDAR_SECS: i64 = 8_210_266_876_799;

/// `chrono::DateTime::<Utc>::from_timestamp`, read back through
/// `timestamp` and `timestamp_subsec_nanos`.
///
/// With less than a second of nanoseconds the call succeeds exactly when the
/// second lies in a year from -262143 to 262142, and the value it builds
/// reports the seconds and nanoseconds it was made from.
#[verifier::external_body]
fn calendar_from_timestamp(secs: i64, nanos: u32) -> (r: Option<(i64, u32)>)
    requires
        nanos < 1_000_000_000,
    ensures
        r is Some <==> MIN_CALENDAR_SECS <= secs <= MAX_CALENDAR_SECS,
        r is Some ==> r == Some((secs, nanos)),
{
    chrono::DateTime::from_timestamp(secs, nanos).map(
        |dt| (dt.timestamp(), dt.timestamp_subsec_nanos()),
    )
}

/// What `chrono::NaiveDateTime::parse_from_str` reads from a text under a
/// format, as seconds since 1970 and nanoseconds of the second.
pub uninterp spec fn parsed_datetime(text: Seq<char>, format: Seq<char>) -> Option<(i64, u32)>;

/// `chrono::NaiveDateTime::parse_from_str`, its result taken as UTC and read
/// through `timestamp` and `timestamp_subsec_nanos`.
#[verifier::external_body]
pub(crate) fn calendar_parse(text: &str, format: &str) -> (r: Option<(i64, u32)>)
    ensures
        r == parsed_datetime(text@, format@),
{
    chrono::NaiveDateTime::parse_from_str(text, format).ok().map(
        |naive| (naive.and_utc().timestamp(), naive.and_utc().timestamp_subsec_nanos()),
    )
}

/// The timestamp that a count of 100 ns ticks since 0001-01-01 stands for.
pub open spec fn spec_from_100ns(ticks: u64) -> Option<Timestamp> {
    if ticks < ZERO_OFFSET_100NS {
        None
    } else {
        let since_1970 = ticks - ZERO_OFFSET_100NS;
        Some(
            Timestamp {
                secs: (since_1970 / TICKS_PER_SECOND as int) as i64,
                nanos: ((since_1970 % TICKS_PER_SECOND as int) * NANOS_PER_TICK) as u32,
            },
        )
    }
}

/// Converts 100 ns ticks since 0001-01-01 00:00:00 into a timestamp.
/// Values before 1970 give `None`.
pub fn from_100ns(gcom_datetime: u64) -> (r: Option<Timestamp>)
    ensures
        r == spec_from_100ns(gcom_datetime),
{
    match gcom_datetime.checked_sub(ZERO_OFFSET_100NS) {
        Some(timestamp_100ns) => {
            let ts_sec: u64 = timestamp_100ns / TICKS_PER_SECOND;
            let ts_nano: u32 = ((timestamp_100ns % TICKS_PER_SECOND) as u32) * NANOS_PER_TICK;
            match calendar_from_timestamp(ts_sec as i64, ts_nano) {
                Some((secs, nanos)) => Some(Timestamp { secs, nanos }),
                None => None,
            }
        },
        None => None,
    }
}

/// The count of 100 ns ticks since 0001-01-01 that stands for a timestamp,
/// where that count is not negative and fits 64 bits. Nanoseconds below one
/// tick are dropped.
pub open spec fn spec_to_100ns(datetime: Timestamp) -> Option<u64> {
    let secs_since_zero = datetime.secs + ZERO_OFFSET_1SEC;
    let ticks = secs_since_zero * TICKS_PER_SECOND + datetime.nanos / NANOS_PER_TICK;
    if 0 <= secs_since_zero && ticks <= u64::MAX {
        Some(ticks as u64)
    } else {
        None
    }
}

/// Converts a timestamp into 100 ns ticks since 0001-01-01 00:00:00.
/// Gives `None` for a time before the year 1 or too late for 64 bits.
pub fn to_100ns(datetime: Timestamp) -> (r: Option<u64>)
    ensures
        r == spec_to_100ns(datetime),
{
    match datetime.secs.checked_add(ZERO_OFFSET_1SEC) {
        Some(zero_offset_sec) => {
            if zero_offset_sec < 0 {
                None
            } else {
                match (zero_offset_sec as u64).checked_mul(TICKS_PER_SECOND) {
                    Some(gcom_datetime) => gcom_datetime.checked_add(
                        (datetime.nanos / NANOS_PER_TICK) as u64,
                    ),
                    None => {
                        assert(zero_offset_sec * TICKS_PER_SECOND > u64::MAX);
                        None
                    },
                }
            }
        },
        None => {
            assert(datetime.secs + ZERO_OFFSET_1SEC > i64::MAX);
            assert((datetime.secs + ZERO_OFFSET_1SEC) * TICKS_PER_SECOND > u64::MAX)
                by (nonlinear_arith)
                requires
                    datetime.secs + ZERO_OFFSET_1SEC > i64::MAX,
                    TICKS_PER_SECOND == 10_000_000,
            ;
            None
        },
    }
}

/// The timestamp `gcom_timespan` ticks of 100 ns away from `datetime`, where
/// both it and `datetime` can be counted in ticks since 0001-01-01.
pub open spec fn spec_add_offset_100ns(datetime: Timestamp, gcom_timespan: i64) -> Option<
    Timestamp,
> {
    match spec_to_100ns(datetime) {
        Some(ticks) => {
            if 0 <= ticks + gcom_timespan <= u64::MAX {
                spec_from_100ns((ticks + gcom_timespan) as u64)
            } else {
                None
            }
        },
        None => None,
    }
}

/// Moves a timestamp by a signed count of 100 ns ticks, without leap
/// seconds. Gives `None` where the sum leaves the range of the tick count
/// or lies before 1970.
pub fn add_offset_100ns(datetime: Timestamp, gcom_timespan: i64) -> (r: Option<Timestamp>)
    ensures
        r == spec_add_offset_100ns(datetime, gcom_timespan),
{
    match to_100ns(datetime) {
        Some(gcom_datetime) => {
            if gcom_timespan == i64::MIN {
                // The magnitude of the smallest value has no positive
                // counterpart: take it off in two steps.
                match gcom_datetime.checked_sub(i64::MAX as u64) {
                    Some(gcom_datetime) => match gcom_datetime.checked_sub(1) {
                        Some(gcom_datetime) => from_100ns(gcom_datetime),
                        None => None,
                    },
                    None => None,
                }
            } else if gcom_timespan < 0 {
                match gcom_datetime.checked_sub((-gcom_timespan) as u64) {
                    Some(gcom_datetime) => from_100ns(gcom_datetime),
                    None => None,
                }
            } else {
                match gcom_datetime.checked_add(gcom_timespan as u64) {
                    Some(gcom_datetime) => from_100ns(gcom_datetime),
                    None => None,
                }
            }
        },
        None => None,
    }
}

/// The timestamp that a count of milliseconds since 1970-01-01 stands for,
/// where the calendar reaches that far.
pub open spec fn spec_from_timestamp_ms(timestamp_ms: u64) -> Option<Timestamp> {
    if timestamp_ms / 1000 <= MAX_CALENDAR_SECS {
        Some(
            Timestamp {
                secs: (timestamp_ms / 1000) as i64,
                nanos: ((timestamp_ms % 1000) * 1_000_000) as u32,
            },
        )
    } else {
        None
    }
}

/// Converts milliseconds since 1970-01-01 00:00:00 into a timestamp.
pub fn from_timestamp_ms(timestamp_ms: u64) -> (r: Option<Timestamp>)
    ensures
        r == spec_from_timestamp_ms(timestamp_ms),
{
    let ts_sec: u64 = timestamp_ms / 1000;
    let ts_nano: u32 = ((timestamp_ms % 1000) as u32) * 1_000_000;
    match calendar_from_timestamp(ts_sec as i64, ts_nano) {
        Some((secs, nanos)) => Some(Timestamp { secs, nanos }),
        None => None,
    }
}

/// Converting ticks to a timestamp and back gives the ticks again.
pub proof fn lemma_100ns_round_trip(ticks: u64)
    requires
        spec_from_100ns(ticks) is Some,
    ensures
        spec_to_100ns(spec_from_100ns(ticks).unwrap()) == Some(ticks),
{
}

/// A timestamp made from ticks, moved by an offset and moved back by the
/// negated offset, is the timestamp it was.
pub proof fn lemma_offset_round_trip(ticks: u64, gcom_timespan: i64)
    requires
        spec_from_100ns(ticks) is Some,
        gcom_timespan > i64::MIN,
        spec_add_offset_100ns(spec_from_100ns(ticks).unwrap(), gcom_timespan) is Some,
    ensures
        spec_add_offset_100ns(
            spec_add_offset_100ns(spec_from_100ns(ticks).unwrap(), gcom_timespan).unwrap(),
            (-gcom_timespan) as i64,
        ) == spec_from_100ns(ticks),
{
    lemma_100ns_round_trip(ticks);
    let moved = (ticks + gcom_timespan) as u64;
    lemma_100ns_round_trip(moved);
}

} // verus!

//! Local time in Berlin. `chrono` and `chrono_tz` know the time zone; what they return is
//! a function of the time alone and has a name here.
//!
//! A local time is written as the number of seconds that the same clock reading would be
//! after the Unix epoch in UTC.
use vstd::prelude::*;
use crate::text;
use crate::time;
use crate::time::{Duration, Timestamp, MAX_SECS, MIN_SECS};
use chrono::{Offset, TimeZone};

verus! {

/// Seconds of a day.
pub const DAY: i64 = 86_400;

/// Room beyond the range of a `Timestamp` for sums with a few days and a time zone.
pub const SPARE_SECS: i64 = 400_000;

/// The first and the last second of the range of `chrono::NaiveDateTime`.
pub const CHRONO_MIN_SECS: i64 = -8_334_601_228_800;

pub const CHRONO_MAX_SECS: i64 = 8_210_266_876_799;

/// What Berlin time is ahead of UTC at a point in time, in seconds.
pub uninterp spec fn berlin_offset(secs: i64) -> i32;

/// Calls `offset_from_utc_datetime` of `chrono_tz::Europe::Berlin` and reads the offset
/// with `fix` and `local_minus_utc`. The result is named `berlin_offset`; like every
/// `chrono::FixedOffset` it is less than a day.
#[verifier::external_body]
fn offset_at(secs: i64) -> (r: i32)
    requires
        MIN_SECS - SPARE_SECS <= secs <= MAX_SECS + SPARE_SECS,
    ensures
        r == berlin_offset(secs),
        -86_400 < r < 86_400,
{
    let utc = chrono::DateTime::from_timestamp(secs, 0).unwrap().naive_utc();
    chrono_tz::Europe::Berlin.offset_from_utc_datetime(&utc).fix().local_minus_utc()
}

/// The points in time, in seconds, at which clocks in Berlin show a local time: mostly
/// one, two when clocks are set back, none when they are set forward over it.
#[derive(Debug, Clone, Copy, PartialEq, Eq, Structural)]
pub enum LocalTimes {
    Single(i64),
    Ambiguous(i64, i64),
    Gap,
}

/// When clocks in Berlin show a local time.
pub uninterp spec fn berlin_instants(local: i64) -> LocalTimes;

/// Whether a point in time is less than a day from a local time.
pub open spec fn within_a_day(local: i64, t: i64) -> bool {
    -86_400 < local - t < 86_400
}

/// Calls `chrono::NaiveDateTime::and_local_timezone` with `chrono_tz::Europe::Berlin`.
/// The result is named `berlin_instants`; a point in time is the local time without an
/// offset of less than a day.
#[verifier::external_body]
fn instants_of(local: i64) -> (r: LocalTimes)
    requires
        CHRONO_MIN_SECS <= local <= CHRONO_MAX_SECS,
    ensures
        r == berlin_instants(local),
        match r {
            LocalTimes::Single(t) => within_a_day(local, t),
            LocalTimes::Ambiguous(a, b) => within_a_day(local, a) && within_a_day(local, b),
            LocalTimes::Gap => true,
        },
{
    let naive = chrono::DateTime::from_timestamp(local, 0).unwrap().naive_utc();
    match naive.and_local_timezone(chrono_tz::Europe::Berlin) {
        chrono::MappedLocalTime::Single(t) => LocalTimes::Single(t.timestamp()),
        chrono::MappedLocalTime::Ambiguous(a, b) => {
            LocalTimes::Ambiguous(a.timestamp(), b.timestamp())
        }
        chrono::MappedLocalTime::None => LocalTimes::Gap,
    }
}

/// The point in time that a local time stands for, out of those at which clocks show it:
/// the later of two; where clocks skip it, the same reading in UTC.
pub open spec fn resolved(local: i64, times: LocalTimes) -> i64 {
    match times {
        LocalTimes::Single(t) => t,
        LocalTimes::Ambiguous(_, latest) => latest,
        LocalTimes::Gap => local,
    }
}

pub fn resolve(local: i64, times: LocalTimes) -> (r: i64)
    ensures
        r == resolved(local, times),
{
    match times {
        LocalTimes::Single(t) => t,
        LocalTimes::Ambiguous(_, latest) => latest,
        LocalTimes::Gap => local,
    }
}

/// Resolves a local time in Berlin to a point in time, in seconds. Of two that clocks
/// show when they are set back, the later one; where clocks are set forward over it, the
/// local time counts as UTC, which lands just after the gap.
pub fn resolve_berlin_time(local: i64) -> (r: i64)
    requires
        CHRONO_MIN_SECS <= local <= CHRONO_MAX_SECS,
    ensures
        r == resolved(local, berlin_instants(local)),
        within_a_day(local, r),
{
    resolve(local, instants_of(local))
}

/// The local time in Berlin at a point in time, both in seconds.
pub open spec fn local_at(secs: int) -> int {
    secs + berlin_offset(secs as i64)
}

/// The day of a local time, counted from the Unix epoch.
pub open spec fn day_of(local: int) -> int {
    local / 86_400
}

pub fn local_time(secs: i64) -> (r: i64)
    requires
        MIN_SECS - SPARE_SECS <= secs <= MAX_SECS + SPARE_SECS,
    ensures
        r == local_at(secs as int),
        -86_400 < r - secs < 86_400,
{
    secs + offset_at(secs) as i64
}

/// The day of a local time, rounded down.
pub fn local_day(local: i64) -> (r: i64)
    requires
        -10_000_000_000_000 < local < 10_000_000_000_000,
    ensures
        r == day_of(local as int),
        r * 86_400 <= local < r * 86_400 + 86_400,
{
    if local >= 0 {
        local / DAY
    } else {
        -((-local + 86_399) / DAY)
    }
}

/// The Berlin date at a point in time, as a number of days from the Unix epoch.
pub fn berlin_date(now: &Timestamp) -> (r: i64)
    ensures
        r == day_of(local_at(now.spec_secs() as int)),
        r * 86_400 <= local_at(now.spec_secs() as int) < r * 86_400 + 86_400,
{
    let secs: i64 = now.secs();
    local_day(local_time(secs))
}

/// The seconds from midnight to an hour, minute and second.
pub open spec fn clock_secs(hour: int, minute: int, second: int) -> int {
    hour * 3600 + minute * 60 + second
}

/// The point in time, in seconds, at which clocks in Berlin next show an hour and a
/// minute: on the present day there, or on the next one where that is not after now.
pub open spec fn next_occurrence(now: int, hour: int, minute: int) -> int {
    let today = day_of(local_at(now)) * 86_400 + clock_secs(hour, minute, 0);
    let first = resolved(today as i64, berlin_instants(today as i64));
    if first > now {
        first as int
    } else {
        let tomorrow = (day_of(local_at(now)) + 1) * 86_400 + clock_secs(hour, minute, 0);
        resolved(tomorrow as i64, berlin_instants(tomorrow as i64)) as int
    }
}

/// Calculates the next occurrence of a daily time in Berlin, in seconds from the Unix
/// epoch. If the time has already passed today, it is tomorrow's.
pub fn calculate_next_occurrence(now: &Timestamp, hour: u32, minute: u32) -> (r: i64)
    requires
        hour < 24,
        minute < 60,
    ensures
        r == next_occurrence(now.spec_secs() as int, hour as int, minute as int),
        -4 * 86_400 < r - now.spec_secs() < 4 * 86_400,
{
    let secs: i64 = now.secs();
    let at: i64 = hour as i64 * 3600 + minute as i64 * 60;
    let day: i64 = local_day(local_time(secs));
    let first: i64 = resolve_berlin_time(day * DAY + at);
    if first > secs {
        return first;
    }
    resolve_berlin_time((day + 1) * DAY + at)
}

/// The nanoseconds from now to a point in time given in milliseconds, if it is later.
pub open spec fn time_until(now: int, target_millis: int) -> Option<int> {
    if target_millis * 1_000_000 > now {
        Some(target_millis * 1_000_000 - now)
    } else {
        None
    }
}

pub open spec fn opt_duration(d: Option<Duration>) -> Option<int> {
    match d {
        Some(d) => Some(d@),
        None => None,
    }
}

fn wait_from(now: &Timestamp, target_millis: i128) -> (r: Option<Duration>)
    requires
        -20_000_000_000_000_000 < target_millis < 20_000_000_000_000_000,
    ensures
        opt_duration(r) == time_until(now@, target_millis as int),
{
    let here: i128 = now.secs() as i128 * 1_000_000_000 + now.nanos() as i128;
    let there: i128 = target_millis * 1_000_000;
    if there > here {
        Some(Duration { nanos: (there - here) as u128 })
    } else {
        None
    }
}

/// How long to sleep until the next occurrence of a daily time in Berlin.
pub fn wait_until_schedule(now: &Timestamp, hour: u32, minute: u32) -> (r: Option<Duration>)
    requires
        hour < 24,
        minute < 60,
    ensures
        opt_duration(r) == time_until(
            now@,
            next_occurrence(now.spec_secs() as int, hour as int, minute as int) * 1000,
        ),
{
    let next: i64 = calculate_next_occurrence(now, hour, minute);
    let _in_range: i64 = now.secs();
    wait_from(now, next as i128 * 1000)
}

/// The milliseconds from the Unix epoch at which today's clocks in Berlin show a time,
/// less an expected latency.
pub open spec fn today_at(now: int, hour: int, minute: int, second: int, latency: int) -> int {
    let local = day_of(local_at(now)) * 86_400 + clock_secs(hour, minute, second);
    resolved(local as i64, berlin_instants(local as i64)) * 1000 - latency
}

/// How long to sleep until a time today in Berlin, less an expected latency in
/// milliseconds; `None` where it has already passed.
pub fn sleep_until_hms(
    now: &Timestamp,
    hour: u32,
    minute: u32,
    second: u32,
    expected_latency: u32,
) -> (r: Option<Duration>)
    requires
        hour < 24,
        minute < 60,
        second < 60,
    ensures
        opt_duration(r) == time_until(
            now@,
            today_at(
                now.spec_secs() as int,
                hour as int,
                minute as int,
                second as int,
                expected_latency as int,
            ),
        ),
{
    let secs: i64 = now.secs();
    let at: i64 = hour as i64 * 3600 + minute as i64 * 60 + second as i64;
    let local: i64 = local_day(local_time(secs)) * DAY + at;
    let target: i64 = resolve_berlin_time(local);
    wait_from(now, target as i128 * 1000 - expected_latency as i128)
}

/// The earlier of the points in time at which clocks show a local time.
pub open spec fn earliest(times: LocalTimes) -> Option<int> {
    match times {
        LocalTimes::Single(t) => Some(t as int),
        LocalTimes::Ambiguous(first, _) => Some(first as int),
        LocalTimes::Gap => None,
    }
}

/// The point in time, in seconds, at which a daily task runs on a local day, if clocks do
/// not skip it there: the earlier one where there are two.
pub open spec fn run_on(day: int, run_at: int) -> Option<int> {
    earliest(berlin_instants((day * 86_400 + run_at) as i64))
}

/// The next run of a daily task at a time of day, in seconds: the first one after now, on
/// the present local day or one of the two after it. Clocks may skip the time on one day.
pub open spec fn next_daily_run(now: int, run_at: int) -> Option<int> {
    let day = day_of(local_at(now));
    if run_on(day, run_at) matches Some(t) && t > now {
        run_on(day, run_at)
    } else if run_on(day + 1, run_at) matches Some(t) && t > now {
        run_on(day + 1, run_at)
    } else if run_on(day + 2, run_at) matches Some(t) && t > now {
        run_on(day + 2, run_at)
    } else {
        None
    }
}

fn earliest_of(times: LocalTimes) -> (r: Option<i64>)
    ensures
        match r {
            Some(t) => earliest(times) == Some(t as int),
            None => earliest(times) is None,
        },
{
    match times {
        LocalTimes::Single(t) => Some(t),
        LocalTimes::Ambiguous(first, _) => Some(first),
        LocalTimes::Gap => None,
    }
}

/// The run of a daily task on a local day, if there is one after now.
fn run_after(now: i64, day: i64, run_at: u32) -> (r: Option<i64>)
    requires
        MIN_DAY <= day <= MAX_DAY,
        run_at < 86_400,
    ensures
        match r {
            Some(t) => run_on(day as int, run_at as int) == Some(t as int) && t > now,
            None => !(run_on(day as int, run_at as int) matches Some(t) && t > now),
        },
{
    match earliest_of(instants_of(day * DAY + run_at as i64)) {
        Some(t) => if t > now {
            Some(t)
        } else {
            None
        },
        None => None,
    }
}

/// Calculates the next run of a daily task at a time of day in Berlin, given in seconds
/// from midnight. A time that has passed today, or that clocks skip, comes on a later day.
pub fn calculate_next_daily_run(now: &Timestamp, run_at: u32) -> (r: Option<i64>)
    requires
        run_at < 86_400,
    ensures
        match r {
            Some(t) => next_daily_run(now.spec_secs() as int, run_at as int) == Some(t as int)
                && t > now.spec_secs(),
            None => next_daily_run(now.spec_secs() as int, run_at as int) is None,
        },
{
    let secs: i64 = now.secs();
    let day: i64 = local_day(local_time(secs));
    if let Some(t) = run_after(secs, day, run_at) {
        return Some(t);
    }
    if let Some(t) = run_after(secs, day + 1, run_at) {
        return Some(t);
    }
    run_after(secs, day + 2, run_at)
}

// ---------------------------------------------------------------------------
// Texts
// ---------------------------------------------------------------------------

/// The format of a day, as in 31.12.2024.
pub const DAY_FORMAT: &'static str = "%d.%m.%Y";

/// What `chrono` prints for a local time in a format.
pub uninterp spec fn formatted(local: i64, format: Seq<char>) -> Seq<char>;

/// Prints the `chrono::NaiveDateTime` of a local time with `format`. The result is named
/// `formatted`.
#[verifier::external_body]
fn format_local(local: i64, format: &str) -> (r: String)
    requires
        CHRONO_MIN_SECS <= local <= CHRONO_MAX_SECS,
        format@ == DAY_FORMAT@,
    ensures
        r@ == formatted(local, format@),
{
    let naive = chrono::DateTime::from_timestamp(local, 0).unwrap().naive_utc();
    naive.format(format).to_string()
}

/// The first and the last day of the range of `chrono::NaiveDate`, counted from the Unix
/// epoch.
pub const MIN_DAY: i64 = -96_465_292;

pub const MAX_DAY: i64 = 95_026_236;

/// The text of a day, as in 31.12.2024.
pub open spec fn day_text(day: int) -> Seq<char> {
    formatted((day * 86_400) as i64, DAY_FORMAT@)
}

pub fn format_day(day: i64) -> (r: String)
    requires
        MIN_DAY <= day <= MAX_DAY,
    ensures
        r@ == day_text(day as int),
{
    format_local(day * DAY, DAY_FORMAT)
}

/// The format of a point in time with its time zone.
pub const STAMP_FORMAT: &'static str = "%Y-%m-%d %H:%M %Z";

/// What `chrono` prints for a point in time in Berlin in a format.
pub uninterp spec fn berlin_formatted(secs: i64, format: Seq<char>) -> Seq<char>;

/// Prints the `chrono::DateTime` of a point in time in `chrono_tz::Europe::Berlin` with
/// `format`. The result is named `berlin_formatted`.
#[verifier::external_body]
fn format_berlin(secs: i64, format: &str) -> (r: String)
    requires
        MIN_SECS <= secs <= MAX_SECS,
        format@ == STAMP_FORMAT@ || format@ == DATETIME_FORMAT@ || format@ == CLOCK_FORMAT@,
    ensures
        r@ == berlin_formatted(secs, format@),
{
    let utc = chrono::DateTime::from_timestamp(secs, 0).unwrap();
    utc.with_timezone(&chrono_tz::Europe::Berlin).format(format).to_string()
}

/// The text of a point in time in Berlin, with its time zone.
pub fn format_stamp(now: &Timestamp) -> (r: String)
    ensures
        r@ == berlin_formatted(now.spec_secs(), STAMP_FORMAT@),
{
    format_berlin(now.secs(), STAMP_FORMAT)
}

/// The text of a point in time in Berlin, as in 2024-12-31T18:30:00.
pub fn format_datetime(now: &Timestamp) -> (r: String)
    ensures
        r@ == berlin_formatted(now.spec_secs(), DATETIME_FORMAT@),
{
    format_berlin(now.secs(), DATETIME_FORMAT)
}

/// The text of the time of day at a point in time in Berlin, as in 18:30.
pub fn format_clock(now: &Timestamp) -> (r: String)
    ensures
        r@ == berlin_formatted(now.spec_secs(), CLOCK_FORMAT@),
{
    format_berlin(now.secs(), CLOCK_FORMAT)
}

// ---------------------------------------------------------------------------
// Times in configurations
// ---------------------------------------------------------------------------

/// The format of a time of day, as in 18:30.
pub const CLOCK_FORMAT: &'static str = "%H:%M";

/// What `chrono` reads as a time of day in a format, in seconds from midnight.
pub uninterp spec fn clock_value(s: Seq<char>, format: Seq<char>) -> Option<u32>;

/// Calls `chrono::NaiveTime::parse_from_str` and reads `num_seconds_from_midnight` of the
/// result. The result is named `clock_value`; a day has 86400 seconds.
#[verifier::external_body]
fn parse_naive_time(s: &str, format: &str) -> (r: Option<u32>)
    ensures
        r == clock_value(s@, format@),
        r is Some ==> r->0 < 86_400,
{
    let parsed = chrono::NaiveTime::parse_from_str(s, format).ok()?;
    Some(chrono::Timelike::num_seconds_from_midnight(&parsed))
}

/// What a text stands for as a time of day.
pub open spec fn clock_of(s: Seq<char>) -> Option<u32> {
    clock_value(s, CLOCK_FORMAT@)
}

/// What a text stands for as a local date and time.
pub open spec fn datetime_of(s: Seq<char>) -> Option<(i64, u32)> {
    datetime_value(s, DATETIME_FORMAT@)
}

/// Parses a time of day such as 18:30, as seconds from midnight.
pub fn parse_clock(s: &str) -> (r: Option<u32>)
    ensures
        r == clock_value(s@, CLOCK_FORMAT@),
        r == clock_of(s@),
        r is Some ==> r->0 < 86_400,
{
    parse_naive_time(s, CLOCK_FORMAT)
}

/// The format of a date and time of day, as in 2024-12-31T18:30:00.
pub const DATETIME_FORMAT: &'static str = "%Y-%m-%dT%H:%M:%S";

/// What `chrono` reads as a local date and time in a format: seconds, and the
/// nanoseconds after them, which go beyond one second inside a leap second.
pub uninterp spec fn datetime_value(s: Seq<char>, format: Seq<char>) -> Option<(i64, u32)>;

/// Calls `chrono::NaiveDateTime::parse_from_str` and reads the result with `and_utc`,
/// `timestamp` and `timestamp_subsec_nanos`. The result is named `datetime_value`; it lies
/// in the range of the type.
#[verifier::external_body]
fn parse_naive_datetime(s: &str, format: &str) -> (r: Option<(i64, u32)>)
    ensures
        r == datetime_value(s@, format@),
        r matches Some(p) ==> CHRONO_MIN_SECS <= p.0 <= CHRONO_MAX_SECS,
{
    let parsed = chrono::NaiveDateTime::parse_from_str(s, format).ok()?.and_utc();
    Some((parsed.timestamp(), parsed.timestamp_subsec_nanos()))
}

/// Parses a local date and time such as 2024-12-31T18:30:00.
pub fn parse_local_datetime(s: &str) -> (r: Option<(i64, u32)>)
    ensures
        r == datetime_value(s@, DATETIME_FORMAT@),
        r == datetime_of(s@),
        r matches Some(p) ==> CHRONO_MIN_SECS <= p.0 <= CHRONO_MAX_SECS,
{
    parse_naive_datetime(s, DATETIME_FORMAT)
}


/// A daily time next comes today, where that is still ahead, else tomorrow: at the point in
/// time at which clocks in Berlin show it, the later one of two, and at the same reading in
/// UTC where clocks skip it.
pub proof fn law_next_occurrence_is_today_or_tomorrow(now: i64, hour: int, minute: int)
    requires
        -9_000_000_000_000 < now < 9_000_000_000_000,
        -86_400 < berlin_offset(now) < 86_400,
        0 <= hour < 24,
        0 <= minute < 60,
    ensures
        ({
            let day = (now + berlin_offset(now)) / 86_400;
            let today = (86_400 * day + 3600 * hour + 60 * minute) as i64;
            let tomorrow = (86_400 * (day + 1) + 3600 * hour + 60 * minute) as i64;
            let at = |local: i64| match berlin_instants(local) {
                LocalTimes::Single(t) => t as int,
                LocalTimes::Ambiguous(a, b) => b as int,
                LocalTimes::Gap => local as int,
            };
            &&& at(today) > now ==> next_occurrence(now as int, hour, minute) == at(today)
            &&& at(today) <= now ==> next_occurrence(now as int, hour, minute) == at(tomorrow)
        }),
{
}

/// A daily task runs at the first point in time after now at which clocks in Berlin show its
/// time of day, and on no day twice: of two readings the earlier one counts.
pub proof fn law_daily_run_is_next(now: i64, run_at: int, r: int)
    requires
        -9_000_000_000_000 < now < 9_000_000_000_000,
        -86_400 < berlin_offset(now) < 86_400,
        0 <= run_at < 86_400,
        next_daily_run(now as int, run_at) == Some(r),
    ensures
        r > now,
        ({
            let day = (now + berlin_offset(now)) / 86_400;
            let comes = |k: int, t: int| {
                ||| berlin_instants((86_400 * (day + k) + run_at) as i64) matches LocalTimes::Single(
                    a,
                ) && a == t
                ||| berlin_instants(
                    (86_400 * (day + k) + run_at) as i64,
                ) matches LocalTimes::Ambiguous(a, b) && a == t
            };
            ||| comes(0, r)
            ||| comes(1, r) && forall|t: int| #[trigger] comes(0, t) ==> t <= now
            ||| comes(2, r) && forall|t: int|
                comes(0, t) || #[trigger] comes(1, t) ==> t <= now
        }),
{
    let day = (now + berlin_offset(now)) / 86_400;
    assert(86_400 * (day + 1) + run_at == (day + 1) * 86_400 + run_at);
    assert(86_400 * (day + 2) + run_at == (day + 2) * 86_400 + run_at);
    assert(86_400 * (day + 0) + run_at == day * 86_400 + run_at);
}

/// A time today is reached so many milliseconds earlier as the latency has.
pub proof fn law_latency_is_taken_off(
    now: i64,
    hour: int,
    minute: int,
    second: int,
    latency: int,
    t: i64,
)
    requires
        berlin_instants(
            (86_400 * ((now + berlin_offset(now)) / 86_400) + 3600 * hour + 60 * minute
                + second) as i64,
        ) == LocalTimes::Single(t),
    ensures
        today_at(now as int, hour, minute, second, latency) == 1000 * t - latency,
{
}

/// What is ahead is waited for, just as long as it takes; what is past is not.
pub proof fn law_waits_until_the_target(now: int, target_millis: int)
    ensures
        time_until(now, target_millis) matches Some(d) ==> d > 0 && now + d == 1_000_000
            * target_millis,
        time_until(now, target_millis) is None <==> 1_000_000 * target_millis <= now,
{
}


/// A time of day is written as hours and minutes, and a local date and time as the date, a
/// `T` and the time with seconds.
pub proof fn law_formats_of_times(s: Seq<char>)
    ensures
        clock_of(s) == clock_value(s, "%H:%M"@),
        datetime_of(s) == datetime_value(s, "%Y-%m-%dT%H:%M:%S"@),
{
}

} // verus!

//! Scheduled messages: when they are posted, how they are configured, and which tasks
//! run for them.
use vstd::prelude::*;
use crate::berlin;
use crate::text;
use crate::time::{TimeDelta, Timestamp};

verus! {

/// A local date and time in Berlin: seconds, and the nanoseconds after them.
#[derive(Debug, Clone, Copy, PartialEq, Eq, Structural)]
pub struct LocalDateTime {
    pub secs: i64,
    pub nanos: u32,
}

impl LocalDateTime {
    /// Whether the date and time is one that can be resolved.
    pub open spec fn wf(self) -> bool {
        berlin::CHRONO_MIN_SECS <= self.secs <= berlin::CHRONO_MAX_SECS
    }

    /// Whether it comes before another, or is the same.
    pub open spec fn at_most(self, other: LocalDateTime) -> bool {
        self.secs < other.secs || (self.secs == other.secs && self.nanos <= other.nanos)
    }
}

/// A scheduled message. Times of day are seconds from midnight.
#[derive(Debug, Clone)]
pub struct Schedule {
    pub name: String,
    pub start_date: Option<LocalDateTime>,
    pub end_date: Option<LocalDateTime>,
    pub active_time_start: Option<u32>,
    pub active_time_end: Option<u32>,
    pub interval: TimeDelta,
    pub message: String,
}

/// The contents of a `Schedule`.
#[verifier::ext_equal]
pub ghost struct Plan {
    pub name: Seq<char>,
    pub start_date: Option<LocalDateTime>,
    pub end_date: Option<LocalDateTime>,
    pub active_time_start: Option<u32>,
    pub active_time_end: Option<u32>,
    pub interval: TimeDelta,
    pub message: Seq<char>,
}

impl Schedule {
    pub open spec fn view(&self) -> Plan {
        Plan {
            name: self.name@,
            start_date: self.start_date,
            end_date: self.end_date,
            active_time_start: self.active_time_start,
            active_time_end: self.active_time_end,
            interval: self.interval,
            message: self.message@,
        }
    }
}

impl Plan {
    /// Whether the dates are ones that can be resolved.
    pub open spec fn wf(self) -> bool {
        &&& self.start_date is Some ==> self.start_date->0.wf()
        &&& self.end_date is Some ==> self.end_date->0.wf()
    }
}

pub open spec fn plans(v: Seq<Schedule>) -> Seq<Plan> {
    Seq::new(v.len(), |i: int| v[i]@)
}

// ---------------------------------------------------------------------------
// When a schedule is active
// ---------------------------------------------------------------------------

/// The point in time, in seconds, of a local date and time.
pub open spec fn instant_of(d: LocalDateTime) -> int {
    berlin::resolved(d.secs, berlin::berlin_instants(d.secs)) as int
}

/// Whether a point in time comes before a local date and time.
pub open spec fn is_before(now: Timestamp, d: LocalDateTime) -> bool {
    now.spec_secs() < instant_of(d) || (now.spec_secs() == instant_of(d) && now.spec_nanos()
        < d.nanos)
}

/// Whether a point in time comes after a local date and time.
pub open spec fn is_after(now: Timestamp, d: LocalDateTime) -> bool {
    now.spec_secs() > instant_of(d) || (now.spec_secs() == instant_of(d) && now.spec_nanos()
        > d.nanos)
}

/// Whether a time of day is in a daily window. One that ends before it starts spans
/// midnight.
pub open spec fn in_window(time: int, start: int, end: int) -> bool {
    if end < start {
        time >= start || time < end
    } else {
        start <= time < end
    }
}

/// The local time of day at a point in time, in seconds from midnight.
pub open spec fn time_of_day(now: Timestamp) -> int {
    berlin::local_at(now.spec_secs() as int) - 86_400 * berlin::day_of(
        berlin::local_at(now.spec_secs() as int),
    )
}

/// Whether a schedule is active: within its dates, and within its daily window where it
/// has one.
pub open spec fn active(p: Plan, now: Timestamp) -> bool {
    &&& p.start_date is Some ==> !is_before(now, p.start_date->0)
    &&& p.end_date is Some ==> !is_after(now, p.end_date->0)
    &&& p.active_time_start is Some && p.active_time_end is Some ==> in_window(
        time_of_day(now),
        p.active_time_start->0 as int,
        p.active_time_end->0 as int,
    )
}

/// Swapping the ends of a window gives the rest of the day.
pub proof fn law_windows_complement(time: int, start: int, end: int)
    requires
        start != end,
    ensures
        in_window(time, start, end) <==> !in_window(time, end, start),
{
}

/// A window that starts when it ends is never open.
pub proof fn law_empty_window(time: int, at: int)
    ensures
        !in_window(time, at, at),
{
}

impl Schedule {
    /// Whether the schedule is active at a point in time, by its dates and its daily
    /// window.
    pub fn is_active(&self, now: &Timestamp) -> (r: bool)
        requires
            self@.wf(),
        ensures
            r == active(self@, *now),
    {
        let secs: i64 = now.secs();
        let nanos: u32 = now.nanos();
        if let Some(start) = self.start_date {
            let at: i64 = berlin::resolve_berlin_time(start.secs);
            if secs < at || (secs == at && nanos < start.nanos) {
                return false;
            }
        }
        if let Some(end) = self.end_date {
            let at: i64 = berlin::resolve_berlin_time(end.secs);
            if secs > at || (secs == at && nanos > end.nanos) {
                return false;
            }
        }
        match (self.active_time_start, self.active_time_end) {
            (Some(start), Some(end)) => {
                let local: i64 = berlin::local_time(secs);
                let time: i64 = local - berlin::local_day(local) * berlin::DAY;
                if end < start {
                    time >= start as i64 || time < end as i64
                } else {
                    time >= start as i64 && time < end as i64
                }
            },
            _ => true,
        }
    }
}

// ---------------------------------------------------------------------------
// Intervals
// ---------------------------------------------------------------------------

/// The most seconds that an interval can have.
pub const MAX_INTERVAL_SECS: i64 = 9_223_372_036_854_775;

/// The least seconds that an interval can have.
pub const MIN_INTERVAL_SECS: i64 = 60;

pub open spec fn too_large(secs: int) -> Seq<char> {
    "Interval too large: "@ + text::signed_decimal(secs) + " seconds"@
}

/// The seconds of an interval in hours and minutes, or what is wrong with it.
pub open spec fn clock_interval(s: Seq<char>) -> Result<int, Seq<char>> {
    let p = text::parts(s, ':');
    if p.len() != 2 {
        Err("Invalid hh:mm format: "@ + s)
    } else {
        let hours = text::signed_value(p[0], i64::MIN as int, i64::MAX as int);
        let minutes = text::signed_value(p[1], i64::MIN as int, i64::MAX as int);
        if hours is None {
            Err("Invalid hours in hh:mm format: "@ + p[0])
        } else if minutes is None {
            Err("Invalid minutes in hh:mm format: "@ + p[1])
        } else if hours->0 < 0 || !(0 <= minutes->0 < 60) {
            Err(
                "Invalid hh:mm values (hours="@ + text::signed_decimal(hours->0) + ", minutes="@
                    + text::signed_decimal(minutes->0) + ")"@,
            )
        } else {
            let total = hours->0 * 3600 + minutes->0 * 60;
            if total < MIN_INTERVAL_SECS {
                Err("Interval must be at least 1 minute (got "@ + s + ")"@)
            } else if total > MAX_INTERVAL_SECS {
                Err(too_large(total))
            } else {
                Ok(total)
            }
        }
    }
}

/// The seconds of a unit of an interval.
pub open spec fn unit_of(c: char) -> Option<int> {
    if c == 'h' {
        Some(3600int)
    } else if c == 'm' {
        Some(60int)
    } else if c == 's' {
        Some(1int)
    } else {
        None
    }
}

/// The state of reading an interval in units: the seconds so far and the digits since the
/// last unit, or what is wrong.
pub open spec fn unit_scan(s: Seq<char>) -> Result<(int, Seq<char>), Seq<char>>
    decreases s.len(),
{
    if s.len() == 0 {
        Ok((0int, Seq::empty()))
    } else {
        match unit_scan(s.drop_last()) {
            Err(e) => Err(e),
            Ok((total, digits)) => {
                let c = s.last();
                if text::is_digit(c) {
                    Ok((total, digits.push(c)))
                } else if unit_of(c) is None {
                    Err("Invalid character in interval: '"@.push(c) + "'"@)
                } else if digits.len() == 0 {
                    Err("No number before unit '"@.push(c) + "'"@)
                } else if text::digits_value(digits) > i64::MAX {
                    Err("Invalid number: "@ + digits)
                } else {
                    let sum = total + text::digits_value(digits) * unit_of(c)->0;
                    if sum > i64::MAX {
                        Err(too_large(sum))
                    } else {
                        Ok((sum, Seq::empty()))
                    }
                }
            },
        }
    }
}

/// The seconds of an interval in units, or what is wrong with it.
pub open spec fn unit_interval(s: Seq<char>) -> Result<int, Seq<char>> {
    match unit_scan(s) {
        Err(e) => Err(e),
        Ok((total, digits)) => if digits.len() > 0 {
            Err("Number without unit at end of interval: "@ + digits)
        } else if total == 0 {
            Err("Interval must be greater than zero"@)
        } else if total < MIN_INTERVAL_SECS {
            Err(
                "Interval must be at least 1 minute (got "@ + text::signed_decimal(total)
                    + " seconds)"@,
            )
        } else if total > MAX_INTERVAL_SECS {
            Err(too_large(total))
        } else {
            Ok(total)
        },
    }
}

/// The seconds of an interval such as `01:30`, `30m` or `2h30m`, or what is wrong with it.
pub open spec fn interval_secs(input: Seq<char>) -> Result<int, Seq<char>> {
    let s = text::trim(input);
    if s.len() == 0 {
        Err("Interval string is empty"@)
    } else if text::parts(s, ':').len() > 1 {
        clock_interval(s)
    } else {
        unit_interval(text::unicode_lower(s))
    }
}

/// An interval that was read is at least a minute long, and not too long.
pub proof fn law_interval_in_range(input: Seq<char>)
    ensures
        interval_secs(input) matches Ok(secs) ==> MIN_INTERVAL_SECS <= secs <= MAX_INTERVAL_SECS,
{
}

pub open spec fn interval_view(r: Result<i64, String>) -> Result<int, Seq<char>> {
    match r {
        Ok(n) => Ok(n as int),
        Err(e) => Err(e@),
    }
}

fn said(before: &str, middle: &str, after: &str) -> (r: String)
    ensures
        r@ == before@ + middle@ + after@,
{
    let mut s = before.to_owned();
    s.push_str(middle);
    s.push_str(after);
    s
}

/// A signed number that fits in 128 bits, in decimal digits.
fn from_i128(n: i128) -> (r: String)
    requires
        n >= 0,
    ensures
        r@ == text::signed_decimal(n as int),
{
    text::from_u128(n as u128)
}

fn read_clock_interval(s: &str, p: &Vec<String>) -> (r: Result<i64, String>)
    requires
        text::views(p@) == text::parts(s@, ':'),
    ensures
        interval_view(r) == clock_interval(s@),
{
    assert(text::views(p@).len() == p@.len());
    if p.len() != 2 {
        let mut e = "Invalid hh:mm format: ".to_owned();
        e.push_str(s);
        return Err(e);
    }
    proof {
        assert(text::views(p@)[0] == p@[0]@);
        assert(text::views(p@)[1] == p@[1]@);
    }
    let hours: i64 = match text::parse_i64(p[0].as_str()) {
        Some(h) => h,
        None => {
            let mut e = "Invalid hours in hh:mm format: ".to_owned();
            e.push_str(p[0].as_str());
            return Err(e);
        },
    };
    let minutes: i64 = match text::parse_i64(p[1].as_str()) {
        Some(m) => m,
        None => {
            let mut e = "Invalid minutes in hh:mm format: ".to_owned();
            e.push_str(p[1].as_str());
            return Err(e);
        },
    };
    if hours < 0 || !(0 <= minutes && minutes < 60) {
        let mut e = "Invalid hh:mm values (hours=".to_owned();
        let h = text::from_i64(hours);
        e.push_str(h.as_str());
        e.push_str(", minutes=");
        let m = text::from_i64(minutes);
        e.push_str(m.as_str());
        e.push_str(")");
        return Err(e);
    }
    let total: i128 = hours as i128 * 3600 + minutes as i128 * 60;
    if total < MIN_INTERVAL_SECS as i128 {
        return Err(said("Interval must be at least 1 minute (got ", s, ")"));
    }
    if total > MAX_INTERVAL_SECS as i128 {
        return Err(said("Interval too large: ", from_i128(total).as_str(), " seconds"));
    }
    Ok(total as i64)
}

proof fn lemma_unit_scan_fails(s: Seq<char>, n: int)
    requires
        0 <= n <= s.len(),
        unit_scan(s.take(n)) is Err,
    ensures
        unit_scan(s) == unit_scan(s.take(n)),
    decreases s.len() - n,
{
    if n < s.len() {
        assert(s.take(n + 1).drop_last() =~= s.take(n));
        lemma_unit_scan_fails(s, n + 1);
    } else {
        assert(s.take(n) =~= s);
    }
}

proof fn lemma_scan_digits(s: Seq<char>)
    ensures
        unit_scan(s) matches Ok((total, digits)) ==> total >= 0 && forall|i: int|
            0 <= i < digits.len() ==> text::is_digit(#[trigger] digits[i]),
    decreases s.len(),
{
    if s.len() > 0 {
        lemma_scan_digits(s.drop_last());
    }
}

/// Reads an interval in units that is already in lower case.
pub fn read_unit_interval(s: &str) -> (r: Result<i64, String>)
    ensures
        interval_view(r) == unit_interval(s@),
{
    let v = text::chars_of(s);
    let mut total: i64 = 0;
    let mut digits = String::new();
    let mut i: usize = 0;
    assert(v@.take(0) =~= Seq::<char>::empty());
    while i < v.len()
        invariant
            v@ == s@,
            i <= v@.len(),
            total >= 0,
            unit_scan(v@.take(i as int)) == Ok::<(int, Seq<char>), Seq<char>>(
                (total as int, digits@),
            ),
        decreases v@.len() - i,
    {
        proof {
            assert(v@.take(i + 1).drop_last() =~= v@.take(i as int));
            assert(v@.take(i + 1).last() == v@[i as int]);
            lemma_scan_digits(v@.take(i as int));
        }
        let ch = v[i];
        if text::is_ascii_digit(ch) {
            digits.push(ch);
        } else if ch == 'h' || ch == 'm' || ch == 's' {
            if text::char_count(digits.as_str()) == 0 {
                proof {
                    lemma_unit_scan_fails(v@, i + 1);
                }
                let mut e = "No number before unit '".to_owned();
                e.push(ch);
                e.push_str("'");
                return Err(e);
            }
            assert(text::is_digits(digits@));
            assert(text::without_plus(digits@) == digits@);
            let num: u64 = match text::parse_unsigned(digits.as_str(), i64::MAX as u64) {
                Some(n) => n,
                None => {
                    proof {
                        lemma_unit_scan_fails(v@, i + 1);
                    }
                    let mut e = "Invalid number: ".to_owned();
                    e.push_str(digits.as_str());
                    return Err(e);
                },
            };
            let unit: i128 = if ch == 'h' {
                3600
            } else if ch == 'm' {
                60
            } else {
                1
            };
            let sum: i128 = total as i128 + num as i128 * unit;
            if sum > i64::MAX as i128 {
                proof {
                    lemma_unit_scan_fails(v@, i + 1);
                }
                return Err(said("Interval too large: ", from_i128(sum).as_str(), " seconds"));
            }
            total = sum as i64;
            digits = String::new();
        } else {
            proof {
                lemma_unit_scan_fails(v@, i + 1);
            }
            let mut e = "Invalid character in interval: '".to_owned();
            e.push(ch);
            e.push_str("'");
            return Err(e);
        }
        i = i + 1;
    }
    assert(v@.take(i as int) =~= v@);
    if text::char_count(digits.as_str()) > 0 {
        let mut e = "Number without unit at end of interval: ".to_owned();
        e.push_str(digits.as_str());
        return Err(e);
    }
    if total == 0 {
        return Err("Interval must be greater than zero".to_owned());
    }
    if total < MIN_INTERVAL_SECS {
        return Err(
            said(
                "Interval must be at least 1 minute (got ",
                text::from_i64(total).as_str(),
                " seconds)",
            ),
        );
    }
    if total > MAX_INTERVAL_SECS {
        return Err(said("Interval too large: ", text::from_i64(total).as_str(), " seconds"));
    }
    Ok(total)
}

impl Schedule {
    /// Parses an interval, as seconds: hours and minutes such as `01:30`, or units such as
    /// `30m`, `1h` and `2h30m`. It is at least a minute long.
    pub fn parse_interval(s: &str) -> (r: Result<i64, String>)
        ensures
            interval_view(r) == interval_secs(s@),
            text::trim(s@).len() > 0 && text::parts(text::trim(s@), ':').len() <= 1
                ==> text::lower_known(text::trim(s@)),
    {
        let t = text::trimmed(s);
        if text::char_count(t.as_str()) == 0 {
            return Err("Interval string is empty".to_owned());
        }
        let p = text::split(t.as_str(), ':');
        assert(text::views(p@).len() == p@.len());
        if p.len() > 1 {
            return read_clock_interval(t.as_str(), &p);
        }
        let lower = text::to_lowercase(t.as_str());
        read_unit_interval(lower.as_str())
    }
}

// ---------------------------------------------------------------------------
// Validation
// ---------------------------------------------------------------------------

/// What is wrong with a schedule; nothing where it is in order.
pub open spec fn fault(p: Plan) -> Option<Seq<char>> {
    let secs = crate::time::quot(p.interval@, 1_000_000_000);
    if text::trim(p.name).len() == 0 {
        Some("Schedule name cannot be empty"@)
    } else if text::trim(p.message).len() == 0 {
        Some("Schedule message cannot be empty"@)
    } else if secs <= 0 {
        Some("Interval must be positive"@)
    } else if secs < 60 {
        Some("Interval must be at least 1 minute"@)
    } else if p.start_date is Some && p.end_date is Some && p.end_date->0.at_most(
        p.start_date->0,
    ) {
        Some("End date must be after start date"@)
    } else if p.active_time_start is Some && p.active_time_end is None {
        Some("active_time_end must be set if active_time_start is set"@)
    } else if p.active_time_start is None && p.active_time_end is Some {
        Some("active_time_start must be set if active_time_end is set"@)
    } else {
        None
    }
}

pub open spec fn fault_view(r: Result<(), String>) -> Option<Seq<char>> {
    match r {
        Ok(()) => None,
        Err(e) => Some(e@),
    }
}

impl Schedule {
    /// Checks the required fields and that they fit together.
    pub fn validate(&self) -> (r: Result<(), String>)
        ensures
            fault_view(r) == fault(self@),
    {
        let name = text::trimmed(self.name.as_str());
        if text::char_count(name.as_str()) == 0 {
            return Err("Schedule name cannot be empty".to_owned());
        }
        let message = text::trimmed(self.message.as_str());
        if text::char_count(message.as_str()) == 0 {
            return Err("Schedule message cannot be empty".to_owned());
        }
        let secs: i128 = self.interval.num_seconds();
        if secs <= 0 {
            return Err("Interval must be positive".to_owned());
        }
        if secs < 60 {
            return Err("Interval must be at least 1 minute".to_owned());
        }
        if let (Some(start), Some(end)) = (self.start_date, self.end_date) {
            if end.secs < start.secs || (end.secs == start.secs && end.nanos <= start.nanos) {
                return Err("End date must be after start date".to_owned());
            }
        }
        match (self.active_time_start, self.active_time_end) {
            (Some(_), None) => Err(
                "active_time_end must be set if active_time_start is set".to_owned(),
            ),
            (None, Some(_)) => Err(
                "active_time_start must be set if active_time_end is set".to_owned(),
            ),
            _ => Ok(()),
        }
    }
}

// ---------------------------------------------------------------------------
// Configuration
// ---------------------------------------------------------------------------

/// A scheduled message as it is configured.
#[derive(Debug, Clone)]
pub struct ScheduleConfig {
    pub name: String,
    pub message: String,
    /// Hours and minutes, such as `01:30`.
    pub interval: String,
    /// Date and time, such as `2024-12-31T18:30:00`.
    pub start_date: Option<String>,
    /// Date and time, such as `2024-12-31T18:30:00`.
    pub end_date: Option<String>,
    /// Time of day, such as `18:30`.
    pub active_time_start: Option<String>,
    /// Time of day, such as `18:30`.
    pub active_time_end: Option<String>,
    pub enabled: bool,
}

/// A date and time that was read, or what is wrong with it.
pub open spec fn datetime_of(s: Seq<char>) -> Result<LocalDateTime, Seq<char>> {
    match berlin::datetime_value(s, berlin::DATETIME_FORMAT@) {
        Some((secs, nanos)) => Ok(LocalDateTime { secs, nanos }),
        None => Err(
            "Invalid datetime format '"@ + s + "' (expected YYYY-MM-DDTHH:MM:SS)"@,
        ),
    }
}

pub open spec fn datetime_view(r: Result<LocalDateTime, String>) -> Result<
    LocalDateTime,
    Seq<char>,
> {
    match r {
        Ok(d) => Ok(d),
        Err(e) => Err(e@),
    }
}

/// Parses a date and time such as `2024-12-31T18:30:00`.
pub fn parse_datetime(s: &str) -> (r: Result<LocalDateTime, String>)
    ensures
        datetime_view(r) == datetime_of(s@),
        r is Ok ==> r->Ok_0.wf(),
{
    match berlin::parse_local_datetime(s) {
        Some((secs, nanos)) => Ok(LocalDateTime { secs, nanos }),
        None => Err(said("Invalid datetime format '", s, "' (expected YYYY-MM-DDTHH:MM:SS)")),
    }
}

/// A time of day that was read, or what is wrong with it.
pub open spec fn clock_of(s: Seq<char>) -> Result<u32, Seq<char>> {
    match berlin::clock_value(s, berlin::CLOCK_FORMAT@) {
        Some(t) => Ok(t),
        None => Err("Invalid time format '"@ + s + "' (expected HH:MM)"@),
    }
}

pub open spec fn clock_view(r: Result<u32, String>) -> Result<u32, Seq<char>> {
    match r {
        Ok(t) => Ok(t),
        Err(e) => Err(e@),
    }
}

/// Parses a time of day such as `18:30`, as seconds from midnight.
pub fn parse_time(s: &str) -> (r: Result<u32, String>)
    ensures
        clock_view(r) == clock_of(s@),
        r is Ok ==> r->Ok_0 < 86_400,
{
    match berlin::parse_clock(s) {
        Some(t) => Ok(t),
        None => Err(said("Invalid time format '", s, "' (expected HH:MM)")),
    }
}

/// What an optional text was read as: nothing for nothing, or what is wrong with it.
pub open spec fn opt_datetime(s: Option<String>) -> Result<Option<LocalDateTime>, Seq<char>> {
    match s {
        None => Ok(None),
        Some(t) => match datetime_of(t@) {
            Ok(d) => Ok(Some(d)),
            Err(e) => Err(e),
        },
    }
}

pub open spec fn opt_clock(s: Option<String>) -> Result<Option<u32>, Seq<char>> {
    match s {
        None => Ok(None),
        Some(t) => match clock_of(t@) {
            Ok(d) => Ok(Some(d)),
            Err(e) => Err(e),
        },
    }
}

fn read_datetime(s: &Option<String>) -> (r: Result<Option<LocalDateTime>, String>)
    ensures
        match r {
            Ok(d) => opt_datetime(*s) == Ok::<Option<LocalDateTime>, Seq<char>>(d) && (d is Some
                ==> d->0.wf()),
            Err(e) => opt_datetime(*s) == Err::<Option<LocalDateTime>, Seq<char>>(e@),
        },
{
    match s {
        None => Ok(None),
        Some(t) => match parse_datetime(t.as_str()) {
            Ok(d) => Ok(Some(d)),
            Err(e) => Err(e),
        },
    }
}

fn read_clock(s: &Option<String>) -> (r: Result<Option<u32>, String>)
    ensures
        match r {
            Ok(d) => opt_clock(*s) == Ok::<Option<u32>, Seq<char>>(d),
            Err(e) => opt_clock(*s) == Err::<Option<u32>, Seq<char>>(e@),
        },
{
    match s {
        None => Ok(None),
        Some(t) => match parse_time(t.as_str()) {
            Ok(d) => Ok(Some(d)),
            Err(e) => Err(e),
        },
    }
}

/// The schedule that a configuration stands for, or the first thing that is wrong with it.
pub open spec fn schedule_of(c: ScheduleConfig) -> Result<Plan, Seq<char>> {
    match interval_secs(c.interval@) {
        Err(e) => Err(e),
        Ok(secs) => match opt_datetime(c.start_date) {
            Err(e) => Err(e),
            Ok(start_date) => match opt_datetime(c.end_date) {
                Err(e) => Err(e),
                Ok(end_date) => match opt_clock(c.active_time_start) {
                    Err(e) => Err(e),
                    Ok(active_time_start) => match opt_clock(c.active_time_end) {
                        Err(e) => Err(e),
                        Ok(active_time_end) => {
                            let p = Plan {
                                name: c.name@,
                                start_date,
                                end_date,
                                active_time_start,
                                active_time_end,
                                interval: TimeDelta { nanos: (secs * 1_000_000_000) as i128 },
                                message: c.message@,
                            };
                            match fault(p) {
                                Some(e) => Err(e),
                                None => Ok(p),
                            }
                        },
                    },
                },
            },
        },
    }
}

pub open spec fn schedule_view(r: Result<Schedule, String>) -> Result<Plan, Seq<char>> {
    match r {
        Ok(s) => Ok(s@),
        Err(e) => Err(e@),
    }
}

/// Turns a configured message into a schedule.
pub fn schedule_config_to_schedule(c: &ScheduleConfig) -> (r: Result<Schedule, String>)
    ensures
        schedule_view(r) == schedule_of(*c),
        r is Ok ==> r->Ok_0@.wf(),
{
    proof {
        law_interval_in_range(c.interval@);
    }
    let secs: i64 = match Schedule::parse_interval(c.interval.as_str()) {
        Ok(n) => n,
        Err(e) => {
            return Err(e);
        },
    };
    let start_date = match read_datetime(&c.start_date) {
        Ok(d) => d,
        Err(e) => {
            return Err(e);
        },
    };
    let end_date = match read_datetime(&c.end_date) {
        Ok(d) => d,
        Err(e) => {
            return Err(e);
        },
    };
    let active_time_start = match read_clock(&c.active_time_start) {
        Ok(t) => t,
        Err(e) => {
            return Err(e);
        },
    };
    let active_time_end = match read_clock(&c.active_time_end) {
        Ok(t) => t,
        Err(e) => {
            return Err(e);
        },
    };
    let schedule = Schedule {
        name: c.name.clone(),
        start_date,
        end_date,
        active_time_start,
        active_time_end,
        interval: TimeDelta { nanos: secs as i128 * 1_000_000_000 },
        message: c.message.clone(),
    };
    match schedule.validate() {
        Ok(()) => Ok(schedule),
        Err(e) => Err(e),
    }
}

/// The schedules that configurations stand for: those that are enabled and in order.
pub open spec fn schedules_of(list: Seq<ScheduleConfig>) -> Seq<Plan>
    decreases list.len(),
{
    if list.len() == 0 {
        Seq::empty()
    } else {
        let rest = schedules_of(list.drop_last());
        if list.last().enabled {
            match schedule_of(list.last()) {
                Ok(p) => rest.push(p),
                Err(e) => rest,
            }
        } else {
            rest
        }
    }
}

/// Turns configured messages into schedules. Those that are disabled or not in order are
/// left out.
pub fn load_schedules_from_config(list: &Vec<ScheduleConfig>) -> (r: Vec<Schedule>)
    ensures
        plans(r@) == schedules_of(list@),
        forall|i: int| 0 <= i < r@.len() ==> (#[trigger] r@[i])@.wf(),
{
    let mut out: Vec<Schedule> = Vec::new();
    let mut i: usize = 0;
    proof {
        assert(plans(out@) =~= Seq::<Plan>::empty());
        assert(list@.take(0) =~= Seq::<ScheduleConfig>::empty());
    }
    while i < list.len()
        invariant
            i <= list@.len(),
            plans(out@) == schedules_of(list@.take(i as int)),
            forall|j: int| 0 <= j < out@.len() ==> (#[trigger] out@[j])@.wf(),
        decreases list@.len() - i,
    {
        let ghost before = plans(out@);
        assert(list@.take(i + 1).drop_last() =~= list@.take(i as int));
        if list[i].enabled {
            match schedule_config_to_schedule(&list[i]) {
                Ok(s) => {
                    let ghost p = s@;
                    out.push(s);
                    assert(plans(out@) =~= before.push(p));
                },
                Err(_) => {},
            }
        }
        i = i + 1;
    }
    assert(list@.take(i as int) =~= list@);
    out
}

proof fn lemma_loaded_valid(list: Seq<ScheduleConfig>, i: int)
    requires
        0 <= i < schedules_of(list).len(),
    ensures
        fault(schedules_of(list)[i]) is None,
    decreases list.len(),
{
    if list.len() > 0 {
        let rest = schedules_of(list.drop_last());
        if i < rest.len() {
            lemma_loaded_valid(list.drop_last(), i);
        }
    }
}

/// Every schedule that is loaded is in order, and there are no more than were configured.
pub proof fn law_loaded_schedules_are_valid(list: Seq<ScheduleConfig>)
    ensures
        schedules_of(list).len() <= list.len(),
        forall|i: int|
            0 <= i < schedules_of(list).len() ==> fault(#[trigger] schedules_of(list)[i]) is None,
    decreases list.len(),
{
    if list.len() > 0 {
        law_loaded_schedules_are_valid(list.drop_last());
    }
    assert forall|i: int| 0 <= i < schedules_of(list).len() implies fault(
        #[trigger] schedules_of(list)[i],
    ) is None by {
        lemma_loaded_valid(list, i);
    }
}

// ---------------------------------------------------------------------------
// Cache and tasks
// ---------------------------------------------------------------------------

/// The schedules that were loaded last, with a version that grows with each load.
#[derive(Debug, Clone)]
pub struct ScheduleCache {
    pub schedules: Vec<Schedule>,
    pub last_updated: Timestamp,
    pub version: u64,
}

impl ScheduleCache {
    /// An empty cache.
    pub fn new(now: Timestamp) -> (r: ScheduleCache)
        ensures
            plans(r.schedules@) == Seq::<Plan>::empty(),
            r.last_updated == now,
            r.version == 0,
    {
        let r = ScheduleCache { schedules: Vec::new(), last_updated: now, version: 0 };
        assert(plans(r.schedules@) =~= Seq::<Plan>::empty());
        r
    }

    /// Takes new schedules, as the next version.
    pub fn update(&mut self, schedules: Vec<Schedule>, now: Timestamp)
        requires
            old(self).version < u64::MAX,
        ensures
            final(self).schedules == schedules,
            final(self).last_updated == now,
            final(self).version == old(self).version + 1,
    {
        self.schedules = schedules;
        self.last_updated = now;
        self.version = self.version + 1;
    }
}

fn same_date(a: &Option<LocalDateTime>, b: &Option<LocalDateTime>) -> (r: bool)
    ensures
        r == (*a == *b),
{
    match (a, b) {
        (Some(x), Some(y)) => *x == *y,
        (None, None) => true,
        _ => false,
    }
}

fn same_time(a: &Option<u32>, b: &Option<u32>) -> (r: bool)
    ensures
        r == (*a == *b),
{
    match (a, b) {
        (Some(x), Some(y)) => *x == *y,
        (None, None) => true,
        _ => false,
    }
}

impl Schedule {
    /// Whether two schedules agree in everything.
    pub fn same(&self, other: &Schedule) -> (r: bool)
        ensures
            r == (self@ == other@),
    {
        text::same(self.name.as_str(), other.name.as_str()) && same_date(
            &self.start_date,
            &other.start_date,
        ) && same_date(&self.end_date, &other.end_date) && same_time(
            &self.active_time_start,
            &other.active_time_start,
        ) && same_time(&self.active_time_end, &other.active_time_end) && self.interval
            == other.interval && text::same(self.message.as_str(), other.message.as_str())
    }
}

/// Whether the schedule at a position is the last one with its name. Of several schedules
/// with one name, only that one counts.
pub open spec fn is_last_named(list: Seq<Plan>, i: int) -> bool {
    forall|j: int| i < j < list.len() ==> (#[trigger] list[j]).name != list[i].name
}

/// Whether a schedule is among those that count, just as it is.
pub open spec fn stands(list: Seq<Plan>, p: Plan) -> bool {
    exists|i: int| 0 <= i < list.len() && is_last_named(list, i) && #[trigger] list[i] == p
}

/// Whether the schedule at a position is the last one with its name.
fn last_named(list: &Vec<Schedule>, at: usize) -> (r: bool)
    requires
        at < list@.len(),
    ensures
        r == is_last_named(plans(list@), at as int),
{
    let ghost all = plans(list@);
    let n: usize = list.len();
    let mut i: usize = at + 1;
    while i < n
        invariant
            all == plans(list@),
            n == list@.len(),
            at < i <= list@.len(),
            forall|j: int| at < j < i ==> (#[trigger] all[j]).name != all[at as int].name,
        decreases list@.len() - i,
    {
        if text::same(list[i].name.as_str(), list[at].name.as_str()) {
            assert(all[i as int].name == all[at as int].name);
            return false;
        }
        i = i + 1;
    }
    true
}

fn is_standing(list: &Vec<Schedule>, schedule: &Schedule) -> (r: bool)
    ensures
        r == stands(plans(list@), schedule@),
{
    let ghost all = plans(list@);
    let mut i: usize = 0;
    while i < list.len()
        invariant
            all == plans(list@),
            i <= list@.len(),
            forall|j: int|
                0 <= j < i ==> !(is_last_named(all, j) && #[trigger] all[j] == schedule@),
        decreases list@.len() - i,
    {
        assert(all[i as int] == list@[i as int]@);
        if schedule.same(&list[i]) && last_named(list, i) {
            return true;
        }
        i = i + 1;
    }
    false
}

fn is_among(list: &Vec<Schedule>, schedule: &Schedule) -> (r: bool)
    ensures
        r == plans(list@).contains(schedule@),
{
    let ghost all = plans(list@);
    let mut i: usize = 0;
    while i < list.len()
        invariant
            all == plans(list@),
            i <= list@.len(),
            forall|j: int| 0 <= j < i ==> #[trigger] all[j] != schedule@,
        decreases list@.len() - i,
    {
        assert(all[i as int] == list@[i as int]@);
        if schedule.same(&list[i]) {
            return true;
        }
        i = i + 1;
    }
    false
}

/// What a task does when its interval is over.
#[derive(Debug, Clone, Copy, PartialEq, Eq, Structural)]
pub enum Tick {
    /// The schedule is gone or was changed: the task ends.
    Stop,
    /// The schedule is not active: nothing is posted.
    Skip,
    Post,
}

/// What the task of a schedule does when its interval is over.
pub open spec fn ticked(loaded: Seq<Plan>, p: Plan, now: Timestamp) -> Tick {
    if stands(loaded, p) {
        if active(p, now) {
            Tick::Post
        } else {
            Tick::Skip
        }
    } else {
        Tick::Stop
    }
}

/// Decides what the task of a schedule does when its interval is over.
pub fn tick(schedule: &Schedule, cache: &ScheduleCache, now: &Timestamp) -> (r: Tick)
    requires
        schedule@.wf(),
    ensures
        r == if !stands(plans(cache.schedules@), schedule@) {
            Tick::Stop
        } else if active(schedule@, *now) {
            Tick::Post
        } else {
            Tick::Skip
        },
        r == ticked(plans(cache.schedules@), schedule@, *now),
{
    if !is_standing(&cache.schedules, schedule) {
        return Tick::Stop;
    }
    if schedule.is_active(now) {
        Tick::Post
    } else {
        Tick::Skip
    }
}

/// Which tasks to stop, by the positions of their schedules among the running ones, and
/// for which schedules to start one, by their positions among the loaded ones.
#[derive(Debug, Clone)]
pub struct TaskPlan {
    pub stop: Vec<usize>,
    pub start: Vec<usize>,
}

/// Whether positions come in order, each of them once.
pub open spec fn ascending(s: Seq<usize>) -> bool {
    forall|a: int, b: int| 0 <= a < b < s.len() ==> #[trigger] s[a] < #[trigger] s[b]
}

/// Whether the task of a running schedule is to be stopped: the schedule was removed or
/// changed.
pub open spec fn is_stopped(running: Seq<Plan>, loaded: Seq<Plan>, k: int) -> bool {
    0 <= k < running.len() && !stands(loaded, running[k])
}

/// Whether a task is to be started for a loaded schedule: it counts, and does not run as
/// it stands.
pub open spec fn is_started(running: Seq<Plan>, loaded: Seq<Plan>, k: int) -> bool {
    0 <= k < loaded.len() && is_last_named(loaded, k) && !running.contains(loaded[k])
}

/// Compares the schedules that tasks run for with those that were loaded: a task whose
/// schedule was removed or changed is stopped, and one is started for each schedule that
/// does not run as it stands. Of several schedules with one name, the last counts.
pub fn plan_tasks(running: &Vec<Schedule>, schedules: &Vec<Schedule>) -> (r: TaskPlan)
    ensures
        ascending(r.stop@),
        r.stop@.no_duplicates(),
        forall|k: usize|
            r.stop@.contains(k) <==> #[trigger] is_stopped(
                plans(running@),
                plans(schedules@),
                k as int,
            ),
        ascending(r.start@),
        r.start@.no_duplicates(),
        forall|k: usize|
            r.start@.contains(k) <==> #[trigger] is_started(
                plans(running@),
                plans(schedules@),
                k as int,
            ),
{
    let ghost run = plans(running@);
    let ghost loaded = plans(schedules@);
    let mut stop: Vec<usize> = Vec::new();
    let mut i: usize = 0;
    while i < running.len()
        invariant
            run == plans(running@),
            loaded == plans(schedules@),
            i <= running@.len(),
            ascending(stop@),
            forall|j: int|
                0 <= j < stop@.len() ==> (#[trigger] stop@[j]) < i && is_stopped(
                    run,
                    loaded,
                    stop@[j] as int,
                ),
            forall|k: usize|
                k < i && #[trigger] is_stopped(run, loaded, k as int) ==> stop@.contains(k),
        decreases running@.len() - i,
    {
        let ghost before = stop@;
        assert(run[i as int] == running@[i as int]@);
        if !is_standing(schedules, &running[i]) {
            stop.push(i);
            proof {
                lemma_keeps(before, i);
            }
        }
        i = i + 1;
    }
    let mut start: Vec<usize> = Vec::new();
    let mut m: usize = 0;
    while m < schedules.len()
        invariant
            run == plans(running@),
            loaded == plans(schedules@),
            m <= schedules@.len(),
            ascending(start@),
            forall|j: int|
                0 <= j < start@.len() ==> (#[trigger] start@[j]) < m && is_started(
                    run,
                    loaded,
                    start@[j] as int,
                ),
            forall|k: usize|
                k < m && #[trigger] is_started(run, loaded, k as int) ==> start@.contains(k),
        decreases schedules@.len() - m,
    {
        let ghost before = start@;
        assert(loaded[m as int] == schedules@[m as int]@);
        if last_named(schedules, m) && !is_among(running, &schedules[m]) {
            start.push(m);
            proof {
                lemma_keeps(before, m);
            }
        }
        m = m + 1;
    }
    TaskPlan { stop, start }
}

/// What was among some positions is still among them once another one is added.
proof fn lemma_keeps(before: Seq<usize>, x: usize)
    ensures
        before.push(x).contains(x),
        forall|k: usize| before.contains(k) ==> #[trigger] before.push(x).contains(k),
{
    assert(before.push(x)[before.len() as int] == x);
    assert forall|k: usize| before.contains(k) implies #[trigger] before.push(x).contains(k) by {
        let i = before.index_of(k);
        assert(before.push(x)[i] == k);
    }
}

/// Once the tasks were stopped and started, a schedule has a task just where it is among
/// those that count: also one that was changed under its old name.
pub proof fn law_tasks_follow_schedules(running: Seq<Plan>, loaded: Seq<Plan>, p: Plan)
    ensures
        stands(loaded, p) <==> {
            ||| exists|k: int|
                0 <= k < running.len() && !is_stopped(running, loaded, k) && #[trigger] running[k]
                    == p
            ||| exists|k: int| is_started(running, loaded, k) && #[trigger] loaded[k] == p
        },
{
    if stands(loaded, p) {
        let i = choose|i: int|
            0 <= i < loaded.len() && is_last_named(loaded, i) && #[trigger] loaded[i] == p;
        if running.contains(p) {
            let k = running.index_of(p);
            assert(running[k] == p && !is_stopped(running, loaded, k));
        } else {
            assert(is_started(running, loaded, i) && loaded[i] == p);
        }
    }
}

/// No name gets two tasks: two schedules that are started have different names, and none
/// has the name of one whose task goes on.
pub proof fn law_names_run_once(running: Seq<Plan>, loaded: Seq<Plan>, a: int, b: int, k: int)
    requires
        is_started(running, loaded, a),
        is_started(running, loaded, b),
        a != b,
        0 <= k < running.len(),
        !is_stopped(running, loaded, k),
    ensures
        loaded[a].name != loaded[b].name,
        running[k].name != loaded[a].name,
{
    let i = choose|i: int|
        0 <= i < loaded.len() && is_last_named(loaded, i) && #[trigger] loaded[i] == running[k];
    if running[k].name == loaded[a].name {
        assert(i == a);
        assert(running.contains(loaded[a]));
    }
}


// ---------------------------------------------------------------------------
// What a configuration means
// ---------------------------------------------------------------------------

/// A schedule has the name and the message of its configuration, its daily window begins
/// and ends at the times of day that are configured for these, and its first and last date
/// are those that are configured for these. What is not configured, it does not have.
pub proof fn law_schedule_is_as_configured(c: ScheduleConfig, p: Plan)
    requires
        schedule_of(c) == Ok::<Plan, Seq<char>>(p),
    ensures
        p.name == c.name@,
        p.message == c.message@,
        c.active_time_start matches Some(s) ==> p.active_time_start is Some && p.active_time_start
            == berlin::clock_value(s@, "%H:%M"@),
        c.active_time_start is None ==> p.active_time_start is None,
        c.active_time_end matches Some(s) ==> p.active_time_end is Some && p.active_time_end
            == berlin::clock_value(s@, "%H:%M"@),
        c.active_time_end is None ==> p.active_time_end is None,
        c.start_date matches Some(s) ==> p.start_date is Some && berlin::datetime_value(
            s@,
            "%Y-%m-%dT%H:%M:%S"@,
        ) == Some((p.start_date->0.secs, p.start_date->0.nanos)),
        c.start_date is None ==> p.start_date is None,
        c.end_date matches Some(s) ==> p.end_date is Some && berlin::datetime_value(
            s@,
            "%Y-%m-%dT%H:%M:%S"@,
        ) == Some((p.end_date->0.secs, p.end_date->0.nanos)),
        c.end_date is None ==> p.end_date is None,
        interval_secs(c.interval@) matches Ok(secs) && p.interval@ == secs * 1_000_000_000,
{
    law_interval_in_range(c.interval@);
}

/// A configured message with a daily window and no dates is active at a time of day just
/// where that lies in the window from the configured start, which counts, to the configured
/// end, which does not; a window that ends before it starts goes over midnight.
pub proof fn law_configured_window_is_kept(
    c: ScheduleConfig,
    p: Plan,
    start: u32,
    end: u32,
    now: Timestamp,
)
    requires
        schedule_of(c) == Ok::<Plan, Seq<char>>(p),
        c.start_date is None,
        c.end_date is None,
        c.active_time_start is Some,
        c.active_time_end is Some,
        berlin::clock_value(c.active_time_start->0@, "%H:%M"@) == Some(start),
        berlin::clock_value(c.active_time_end->0@, "%H:%M"@) == Some(end),
    ensures
        ({
            let time = (now.spec_secs() + berlin::berlin_offset(now.spec_secs())) % 86_400;
            &&& start <= end ==> (active(p, now) <==> start <= time && time < end)
            &&& end < start ==> (active(p, now) <==> time < end || start <= time)
        }),
{
    law_time_of_day_is_local(now);
}

/// The time of day is what clocks in Berlin show, in seconds from midnight.
pub proof fn law_time_of_day_is_local(now: Timestamp)
    ensures
        time_of_day(now) == (now.spec_secs() + berlin::berlin_offset(now.spec_secs())) % 86_400,
        0 <= time_of_day(now) < 86_400,
{
}

/// A schedule without a window is active just from its first date to its last one, both of
/// which count; without dates it always is.
pub proof fn law_dates_are_kept(p: Plan, now: Timestamp)
    requires
        p.active_time_start is None || p.active_time_end is None,
    ensures
        p.start_date is None && p.end_date is None ==> active(p, now),
        p.start_date matches Some(d) ==> now.spec_secs() < berlin::resolved(
            d.secs,
            berlin::berlin_instants(d.secs),
        ) ==> !active(p, now),
        p.end_date matches Some(d) ==> now.spec_secs() > berlin::resolved(
            d.secs,
            berlin::berlin_instants(d.secs),
        ) ==> !active(p, now),
        p.start_date matches Some(a) && p.end_date matches Some(b) && {
            let from = berlin::resolved(a.secs, berlin::berlin_instants(a.secs));
            let to = berlin::resolved(b.secs, berlin::berlin_instants(b.secs));
            &&& from < now.spec_secs() || from == now.spec_secs() && a.nanos <= now.spec_nanos()
            &&& now.spec_secs() < to || now.spec_secs() == to && now.spec_nanos() <= b.nanos
        } ==> active(p, now),
        p.start_date matches Some(a) && p.end_date is None && now.spec_secs() > berlin::resolved(
            a.secs,
            berlin::berlin_instants(a.secs),
        ) ==> active(p, now),
        p.end_date matches Some(b) && p.start_date is None && now.spec_secs() < berlin::resolved(
            b.secs,
            berlin::berlin_instants(b.secs),
        ) ==> active(p, now),
{
}

/// A configuration stands for a schedule just where everything in it can be read, the name
/// and the message are not blank, the last date is after the first one, and the window has
/// both ends or none.
pub proof fn law_valid_configurations_are_accepted(c: ScheduleConfig)
    ensures
        schedule_of(c) is Ok <==> {
            &&& interval_secs(c.interval@) is Ok
            &&& text::trim(c.name@).len() > 0
            &&& text::trim(c.message@).len() > 0
            &&& c.active_time_start is Some <==> c.active_time_end is Some
            &&& c.active_time_start matches Some(s) ==> berlin::clock_value(s@, "%H:%M"@) is Some
            &&& c.active_time_end matches Some(s) ==> berlin::clock_value(s@, "%H:%M"@) is Some
            &&& c.start_date matches Some(s) ==> berlin::datetime_value(
                s@,
                "%Y-%m-%dT%H:%M:%S"@,
            ) is Some
            &&& c.end_date matches Some(s) ==> berlin::datetime_value(
                s@,
                "%Y-%m-%dT%H:%M:%S"@,
            ) is Some
            &&& c.start_date matches Some(s) ==> c.end_date matches Some(e) ==> {
                let a = berlin::datetime_value(s@, "%Y-%m-%dT%H:%M:%S"@);
                let b = berlin::datetime_value(e@, "%Y-%m-%dT%H:%M:%S"@);
                a matches Some(x) ==> b matches Some(y) ==> x.0 < y.0 || x.0 == y.0 && x.1 < y.1
            }
        },
{
    law_interval_in_range(c.interval@);
    if let Ok(secs) = interval_secs(c.interval@) {
        assert(crate::time::quot(secs * 1_000_000_000, 1_000_000_000) == secs);
    }
}

/// Of configured messages, those that are switched on and in order are loaded, in their
/// order, and no others.
pub proof fn law_enabled_schedules_are_loaded(list: Seq<ScheduleConfig>, c: ScheduleConfig)
    ensures
        c.enabled && schedule_of(c) is Ok ==> schedules_of(list.push(c)) == schedules_of(list).push(
            schedule_of(c)->Ok_0,
        ),
        !c.enabled || schedule_of(c) is Err ==> schedules_of(list.push(c)) == schedules_of(list),
        schedules_of(Seq::empty()) == Seq::<Plan>::empty(),
{
    assert(list.push(c).drop_last() =~= list);
}

/// Hours and minutes with a colon between them are an interval of so many, where the
/// minutes are below 60 and it is at least a minute.
pub proof fn law_clock_intervals_are_read(s: Seq<char>)
    ensures
        clock_interval(s) matches Ok(secs) ==> {
            let p = text::parts(s, ':');
            &&& p.len() == 2
            &&& text::signed_value(p[0], i64::MIN as int, i64::MAX as int) matches Some(h)
            &&& text::signed_value(p[1], i64::MIN as int, i64::MAX as int) matches Some(m)
            &&& 0 <= h && 0 <= m < 60 && secs == 3600 * h + 60 * m && 60 <= secs
        },
        ({
            let p = text::parts(s, ':');
            p.len() == 2 && {
                &&& text::signed_value(p[0], i64::MIN as int, i64::MAX as int) matches Some(h)
                &&& text::signed_value(p[1], i64::MIN as int, i64::MAX as int) matches Some(m)
                &&& 0 <= h && 0 <= m < 60 && 60 <= 3600 * h + 60 * m <= 9_223_372_036_854_775
            } ==> clock_interval(s) is Ok
        }),
{
}

/// Numbers with units are added up: an `h` counts 3600 seconds, an `m` 60 and an `s` one.
pub proof fn law_units_are_added_up(s: Seq<char>, digits: Seq<char>, unit: char, total: int)
    requires
        unit_scan(s) == Ok::<(int, Seq<char>), Seq<char>>((total, Seq::empty())),
        text::is_digits(digits),
        unit == 'h' || unit == 'm' || unit == 's',
        text::digits_value(digits) <= i64::MAX,
        total + 3600 * text::digits_value(digits) <= i64::MAX,
    ensures
        unit == 'h' ==> unit_scan((s + digits).push(unit)) == Ok::<(int, Seq<char>), Seq<char>>(
            (total + 3600 * text::digits_value(digits), Seq::empty()),
        ),
        unit == 'm' ==> unit_scan((s + digits).push(unit)) == Ok::<(int, Seq<char>), Seq<char>>(
            (total + 60 * text::digits_value(digits), Seq::empty()),
        ),
        unit == 's' ==> unit_scan((s + digits).push(unit)) == Ok::<(int, Seq<char>), Seq<char>>(
            (total + text::digits_value(digits), Seq::empty()),
        ),
        unit_scan(Seq::empty()) == Ok::<(int, Seq<char>), Seq<char>>((0int, Seq::empty())),
{
    lemma_digits_are_kept(s, digits, total);
    assert((s + digits).push(unit).drop_last() =~= s + digits);
    let v = text::digits_value(digits);
    assert(total >= 0) by {
        lemma_scan_is_positive(s);
    }
    assert(v * 3600 == 3600 * v && v * 60 == 60 * v && v * 1 == v);
}

proof fn lemma_scan_is_positive(s: Seq<char>)
    ensures
        unit_scan(s) matches Ok(r) ==> r.0 >= 0,
    decreases s.len(),
{
    if s.len() > 0 {
        lemma_scan_is_positive(s.drop_last());
    }
}

proof fn lemma_digits_are_kept(s: Seq<char>, digits: Seq<char>, total: int)
    requires
        unit_scan(s) == Ok::<(int, Seq<char>), Seq<char>>((total, Seq::empty())),
        forall|i: int| 0 <= i < digits.len() ==> text::is_digit(#[trigger] digits[i]),
    ensures
        unit_scan(s + digits) == Ok::<(int, Seq<char>), Seq<char>>((total, digits)),
    decreases digits.len(),
{
    if digits.len() == 0 {
        assert(s + digits =~= s);
        assert(digits =~= Seq::empty());
    } else {
        lemma_digits_are_kept(s, digits.drop_last(), total);
        assert((s + digits).drop_last() =~= s + digits.drop_last());
        assert((s + digits).last() == digits.last());
        assert(digits.drop_last().push(digits.last()) =~= digits);
    }
}

/// An interval in units is the sum, where that is at least a minute and no digits are left.
pub proof fn law_unit_intervals_are_sums(s: Seq<char>)
    ensures
        unit_interval(s) matches Ok(secs) ==> secs >= 60 && unit_scan(s) == Ok::<
            (int, Seq<char>),
            Seq<char>,
        >((secs, Seq::empty())),
        unit_scan(s) matches Ok(r) ==> r.1.len() == 0 && 60 <= r.0 <= 9_223_372_036_854_775
            ==> unit_interval(s) == Ok::<int, Seq<char>>(r.0),
{
    if let Ok(r) = unit_scan(s) {
        if r.1.len() == 0 {
            assert(r.1 =~= Seq::empty());
        }
    }
}

/// A task posts just while its schedule counts as it is and is active, and ends once the
/// schedule is gone or changed.
pub proof fn law_tasks_post_while_active(loaded: Seq<Plan>, p: Plan, now: Timestamp)
    ensures
        ticked(loaded, p, now) == Tick::Post <==> stands(loaded, p) && active(p, now),
        ticked(loaded, p, now) == Tick::Stop <==> !stands(loaded, p),
        !loaded.contains(p) ==> ticked(loaded, p, now) == Tick::Stop,
        loaded.len() > 0 && loaded.last() == p ==> ticked(loaded, p, now) != Tick::Stop,
{
    if loaded.len() > 0 && loaded.last() == p {
        let i = loaded.len() - 1;
        assert(is_last_named(loaded, i) && loaded[i] == p);
    }
}

} // verus!

//! Points in time and spans of time, as plain numbers of nanoseconds.
use vstd::prelude::*;

verus! {

/// The first second that a `Timestamp` can hold, counted from the Unix epoch.
pub const MIN_SECS: i64 = -8_334_000_000_000;

/// The last second that a `Timestamp` can hold, counted from the Unix epoch.
pub const MAX_SECS: i64 = 8_210_000_000_000;

pub const NANOS_PER_SEC: u32 = 1_000_000_000;

/// A point in time in UTC, without leap seconds. The range lies inside that of
/// `chrono::DateTime<Utc>` with some years to spare at either end.
#[derive(Debug, Clone, Copy, PartialEq, Eq, Structural)]
pub struct Timestamp {
    secs: i64,
    nanos: u32,
}

impl Timestamp {
    #[verifier::type_invariant]
    spec fn inv(self) -> bool {
        MIN_SECS <= self.secs <= MAX_SECS && self.nanos < 1_000_000_000
    }

    /// Whole seconds since the Unix epoch, rounded down.
    pub closed spec fn spec_secs(&self) -> i64 {
        self.secs
    }

    /// Nanoseconds after the whole second.
    pub closed spec fn spec_nanos(&self) -> u32 {
        self.nanos
    }

    /// Nanoseconds since the Unix epoch.
    pub open spec fn view(&self) -> int {
        self.spec_secs() * 1_000_000_000 + self.spec_nanos()
    }

    /// The point in time at the given seconds and nanoseconds; `None` out of range.
    pub fn new(secs: i64, nanos: u32) -> (r: Option<Timestamp>)
        ensures
            match r {
                Some(t) => {
                    &&& t.spec_secs() == secs
                    &&& t.spec_nanos() == nanos
                    &&& t@ == secs * 1_000_000_000 + nanos
                    &&& MIN_SECS <= secs <= MAX_SECS
                    &&& nanos < 1_000_000_000
                },
                None => !(MIN_SECS <= secs <= MAX_SECS && nanos < 1_000_000_000),
            },
    {
        if MIN_SECS <= secs && secs <= MAX_SECS && nanos < NANOS_PER_SEC {
            Some(Timestamp { secs, nanos })
        } else {
            None
        }
    }

    pub fn secs(&self) -> (r: i64)
        ensures
            r == self.spec_secs(),
            MIN_SECS <= r <= MAX_SECS,
    {
        proof {
            use_type_invariant(self);
        }
        self.secs
    }

    pub fn nanos(&self) -> (r: u32)
        ensures
            r == self.spec_nanos(),
            r < 1_000_000_000,
    {
        proof {
            use_type_invariant(self);
        }
        self.nanos
    }

    /// Whether this point comes before another.
    pub fn is_before(&self, other: &Timestamp) -> (r: bool)
        ensures
            r == (self@ < other@),
    {
        proof {
            use_type_invariant(self);
            use_type_invariant(other);
        }
        self.secs < other.secs || (self.secs == other.secs && self.nanos < other.nanos)
    }

    /// The signed span from another point to this one.
    pub fn since(&self, other: &Timestamp) -> (r: TimeDelta)
        ensures
            r@ == self@ - other@,
            -20_000_000_000_000_000_000_000 < r@ < 20_000_000_000_000_000_000_000,
    {
        proof {
            use_type_invariant(self);
            use_type_invariant(other);
        }
        let a: i128 = self.secs as i128 * 1_000_000_000 + self.nanos as i128;
        let b: i128 = other.secs as i128 * 1_000_000_000 + other.nanos as i128;
        TimeDelta { nanos: a - b }
    }
}

/// The quotient of two integers, rounded toward zero.
pub open spec fn quot(a: int, b: int) -> int
    recommends
        b > 0,
{
    if a >= 0 {
        a / b
    } else {
        -((-a) / b)
    }
}

/// What `quot` leaves over; it has the sign of the dividend.
pub open spec fn remainder(a: int, b: int) -> int
    recommends
        b > 0,
{
    a - b * quot(a, b)
}

/// The whole seconds of a span in nanoseconds, rounded toward zero.
pub open spec fn whole_seconds(span: int) -> int {
    quot(span, 1_000_000_000)
}

/// The whole minutes of a span.
pub open spec fn whole_minutes(span: int) -> int {
    quot(whole_seconds(span), 60)
}

/// The whole hours of a span.
pub open spec fn whole_hours(span: int) -> int {
    quot(whole_seconds(span), 3600)
}

/// The whole days of a span.
pub open spec fn whole_days(span: int) -> int {
    quot(whole_seconds(span), 86_400)
}

/// A signed span of time.
#[derive(Debug, Clone, Copy, PartialEq, Eq, Structural)]
pub struct TimeDelta {
    pub nanos: i128,
}

impl TimeDelta {
    pub open spec fn view(&self) -> int {
        self.nanos as int
    }

    /// The whole seconds of the span, rounded toward zero.
    pub fn num_seconds(&self) -> (r: i128)
        ensures
            r == quot(self@, 1_000_000_000),
            r == whole_seconds(self@),
    {
        quotient(self.nanos, 1_000_000_000)
    }

    /// The whole minutes of the span, rounded toward zero.
    pub fn num_minutes(&self) -> (r: i128)
        ensures
            r == quot(quot(self@, 1_000_000_000), 60),
            r == whole_minutes(self@),
    {
        quotient(self.num_seconds(), 60)
    }

    /// The whole hours of the span, rounded toward zero.
    pub fn num_hours(&self) -> (r: i128)
        ensures
            r == quot(quot(self@, 1_000_000_000), 3600),
            r == whole_hours(self@),
    {
        quotient(self.num_seconds(), 3600)
    }

    /// The whole days of the span, rounded toward zero.
    pub fn num_days(&self) -> (r: i128)
        ensures
            r == quot(quot(self@, 1_000_000_000), 86_400),
            r == whole_days(self@),
    {
        quotient(self.num_seconds(), 86_400)
    }
}

/// Division rounded toward zero.
pub fn quotient(a: i128, b: i128) -> (r: i128)
    requires
        b > 1,
    ensures
        r == quot(a as int, b as int),
{
    if a >= 0 {
        proof {
            assert(0 <= a as int / b as int <= a) by (nonlinear_arith)
                requires
                    a >= 0,
                    b > 1,
            ;
        }
        a / b
    } else {
        let last: i128 = a + 1;
        let m: i128 = (-last) / b;
        let k: i128 = (-last) % b;
        // The magnitude of `a` is one more than that of `last`, which fits after negation.
        proof {
            vstd::arithmetic::div_mod::lemma_fundamental_div_mod((-last) as int, b as int);
        }
        if k + 1 == b {
            proof {
                assert(-a == b * (m + 1)) by (nonlinear_arith)
                    requires
                        -last == b * m + k,
                        k + 1 == b,
                        last == a + 1,
                ;
                vstd::arithmetic::div_mod::lemma_fundamental_div_mod_converse(
                    -a as int,
                    b as int,
                    m + 1,
                    0,
                );
            }
            -m - 1
        } else {
            proof {
                vstd::arithmetic::div_mod::lemma_fundamental_div_mod_converse(
                    -a as int,
                    b as int,
                    m as int,
                    k + 1,
                );
            }
            -m
        }
    }
}

/// A span of seconds, in nanoseconds.
pub open spec fn span_of_secs(secs: int) -> int {
    secs * 1_000_000_000
}

/// A span of milliseconds, in nanoseconds.
pub open spec fn span_of_millis(millis: int) -> int {
    millis * 1_000_000
}

/// An unsigned span of time.
#[derive(Debug, Clone, Copy, PartialEq, Eq, Structural)]
pub struct Duration {
    pub nanos: u128,
}

impl Duration {
    pub open spec fn view(&self) -> int {
        self.nanos as int
    }

    pub fn from_secs(secs: u64) -> (r: Duration)
        ensures
            r@ == secs * 1_000_000_000,
            r@ == span_of_secs(secs as int),
    {
        Duration { nanos: secs as u128 * 1_000_000_000 }
    }

    pub fn from_millis(millis: u64) -> (r: Duration)
        ensures
            r@ == millis * 1_000_000,
            r@ == span_of_millis(millis as int),
    {
        Duration { nanos: millis as u128 * 1_000_000 }
    }

    /// The whole seconds of the span, rounded down.
    pub fn as_secs(&self) -> (r: u128)
        ensures
            r == self@ / 1_000_000_000,
            r == whole_seconds(self@),
    {
        self.nanos / 1_000_000_000
    }
}

/// A reading of a monotonic clock, in nanoseconds since some fixed start.
#[derive(Debug, Clone, Copy, PartialEq, Eq, Structural)]
pub struct Instant {
    pub nanos: u128,
}

impl Instant {
    pub open spec fn view(&self) -> int {
        self.nanos as int
    }

    /// The time that has passed since an earlier reading; zero if it is not earlier.
    pub fn since(&self, earlier: &Instant) -> (r: Duration)
        ensures
            r@ == passed(self@, earlier@),
    {
        if self.nanos >= earlier.nanos {
            Duration { nanos: self.nanos - earlier.nanos }
        } else {
            Duration { nanos: 0 }
        }
    }
}

/// The time from one clock reading to another; zero if the second is not later.
pub open spec fn passed(now: int, earlier: int) -> int {
    if now >= earlier {
        now - earlier
    } else {
        0
    }
}

// ---------------------------------------------------------------------------
// Texts of points in time
// ---------------------------------------------------------------------------

/// What `chrono::DateTime<Utc>` displays for a point in time.
pub uninterp spec fn utc_text(secs: i64, nanos: u32) -> Seq<char>;

/// Prints the `chrono::DateTime<Utc>` at a number of seconds and nanoseconds with its
/// `Display`. The result is named `utc_text`.
#[verifier::external_body]
fn display_utc(secs: i64, nanos: u32) -> (r: String)
    requires
        MIN_SECS <= secs <= MAX_SECS,
        nanos < 1_000_000_000,
    ensures
        r@ == utc_text(secs, nanos),
{
    chrono::DateTime::from_timestamp(secs, nanos).unwrap().to_string()
}

impl Timestamp {
    /// The display text of the point in time.
    pub open spec fn text(&self) -> Seq<char> {
        utc_text(self.spec_secs(), self.spec_nanos())
    }

    pub fn to_text(&self) -> (r: String)
        ensures
            r@ == self.text(),
    {
        display_utc(self.secs(), self.nanos())
    }
}

/// What `chrono` reads in an RFC 3339 text: seconds since the Unix epoch and the
/// nanoseconds after them, which go beyond one second inside a leap second.
pub uninterp spec fn rfc3339_value(s: Seq<char>) -> Option<(i64, u32)>;

/// Calls `chrono::DateTime::parse_from_rfc3339` and reads `timestamp` and
/// `timestamp_subsec_nanos` of the result. The result is named `rfc3339_value`.
#[verifier::external_body]
fn parse_rfc3339(s: &str) -> (r: Option<(i64, u32)>)
    ensures
        r == rfc3339_value(s@),
{
    let parsed = chrono::DateTime::parse_from_rfc3339(s).ok()?;
    Some((parsed.timestamp(), parsed.timestamp_subsec_nanos()))
}

/// The point in time at seconds and nanoseconds that `chrono` read. A leap second counts
/// as the last nanosecond of the second before it.
pub fn from_chrono(value: (i64, u32)) -> (r: Option<Timestamp>)
    ensures
        match r {
            Some(t) => MIN_SECS <= value.0 <= MAX_SECS && t.spec_secs() == value.0
                && t.spec_nanos() == if value.1 < 1_000_000_000 {
                value.1
            } else {
                999_999_999
            },
            None => !(MIN_SECS <= value.0 <= MAX_SECS),
        },
{
    let nanos: u32 = if value.1 < NANOS_PER_SEC {
        value.1
    } else {
        999_999_999
    };
    Timestamp::new(value.0, nanos)
}

/// Whether a point in time is the one that an RFC 3339 text stands for.
pub open spec fn is_rfc3339(t: Timestamp, s: Seq<char>) -> bool {
    rfc3339_value(s) matches Some((secs, nanos)) && t.spec_secs() == secs && t.spec_nanos()
        == if nanos < 1_000_000_000 {
        nanos
    } else {
        999_999_999
    }
}

/// Whether a text is an RFC 3339 point in time that a `Timestamp` can hold.
pub open spec fn reads_as_rfc3339(s: Seq<char>) -> bool {
    rfc3339_value(s) matches Some((secs, nanos)) && MIN_SECS <= secs <= MAX_SECS
}

/// Parses an RFC 3339 point in time.
pub fn read_rfc3339(s: &str) -> (r: Option<Timestamp>)
    ensures
        match r {
            Some(t) => is_rfc3339(t, s@) && reads_as_rfc3339(s@),
            None => !reads_as_rfc3339(s@),
        },
{
    match parse_rfc3339(s) {
        Some(value) => from_chrono(value),
        None => None,
    }
}


// ---------------------------------------------------------------------------
// Spans
// ---------------------------------------------------------------------------

/// A quotient is rounded toward zero: it never exceeds the dividend in size, falls short by
/// less than the divisor, and turns its sign with the dividend. What is left over has the
/// sign of the dividend.
pub proof fn law_rounded_toward_zero(a: int, b: int)
    requires
        b > 0,
    ensures
        a >= 0 ==> b * quot(a, b) <= a < b * quot(a, b) + b,
        quot(-a, b) == -quot(a, b),
        a == b * quot(a, b) + remainder(a, b),
        a >= 0 ==> 0 <= remainder(a, b) < b,
        a <= 0 ==> -b < remainder(a, b) <= 0,
{
    let m = if a >= 0 {
        a
    } else {
        -a
    };
    vstd::arithmetic::div_mod::lemma_fundamental_div_mod(m, b);
    vstd::arithmetic::div_mod::lemma_mod_bound(m, b);
    assert(b * -(m / b) == -(b * (m / b))) by (nonlinear_arith);
    assert(0int / b == 0) by (nonlinear_arith)
        requires
            b > 0,
    ;
}

/// The whole units of a span that does not run backwards: as many as fit into it.
pub proof fn law_units_that_fit(span: int)
    requires
        span >= 0,
    ensures
        whole_seconds(span) * 1_000_000_000 <= span < (whole_seconds(span) + 1) * 1_000_000_000,
        whole_minutes(span) * 60_000_000_000 <= span < (whole_minutes(span) + 1) * 60_000_000_000,
        whole_hours(span) * 3_600_000_000_000 <= span < (whole_hours(span) + 1)
            * 3_600_000_000_000,
        whole_days(span) * 86_400_000_000_000 <= span < (whole_days(span) + 1)
            * 86_400_000_000_000,
        whole_minutes(span) == whole_seconds(span) / 60,
        whole_hours(span) == whole_minutes(span) / 60,
        whole_days(span) == whole_hours(span) / 24,
{
}

/// Going back in time, the units count as going forward, with the sign turned.
pub proof fn law_spans_are_symmetric(span: int)
    ensures
        whole_seconds(-span) == -whole_seconds(span),
        whole_minutes(-span) == -whole_minutes(span),
        whole_hours(-span) == -whole_hours(span),
        whole_days(-span) == -whole_days(span),
{
    law_rounded_toward_zero(span, 1_000_000_000);
    law_rounded_toward_zero(whole_seconds(span), 60);
    law_rounded_toward_zero(whole_seconds(span), 3600);
    law_rounded_toward_zero(whole_seconds(span), 86_400);
}

/// Time that passes adds up, and none has passed before a reading.
pub proof fn law_time_adds_up(earlier: int, now: int, later: int)
    ensures
        earlier <= now <= later ==> passed(later, earlier) == passed(later, now) + passed(
            now,
            earlier,
        ),
        now <= earlier ==> passed(now, earlier) == 0,
        now >= earlier ==> earlier + passed(now, earlier) == now,
{
}

/// A point in time counts the nanoseconds since the epoch: whole seconds, and what comes
/// after them.
pub proof fn law_points_count_nanoseconds(a: Timestamp, b: Timestamp)
    requires
        a.spec_nanos() < 1_000_000_000,
        b.spec_nanos() < 1_000_000_000,
    ensures
        a@ - b@ == (a.spec_secs() - b.spec_secs()) * 1_000_000_000 + (a.spec_nanos()
            - b.spec_nanos()),
        a.spec_secs() < b.spec_secs() ==> a@ < b@,
        a.spec_secs() == b.spec_secs() ==> (a@ < b@ <==> a.spec_nanos() < b.spec_nanos()),
{
}


/// A span that is made of seconds has so many, and a second is a thousand milliseconds.
pub proof fn law_spans_are_made(n: int)
    ensures
        whole_seconds(span_of_secs(n)) == n,
        span_of_millis(1000 * n) == span_of_secs(n),
        whole_minutes(span_of_secs(60 * n)) == n,
        whole_hours(span_of_secs(3600 * n)) == n,
        whole_days(span_of_secs(86_400 * n)) == n,
{
}

} // verus!

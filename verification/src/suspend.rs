//! Suspended commands: which ones, until when, and how a duration is written.
use vstd::prelude::*;
use crate::table::Table;
use crate::text;
use crate::time;
use crate::time::{Duration, Instant};

verus! {

/// Upper bound on a single suspension, in seconds: 7 days.
pub const MAX_SUSPEND_DURATION: u64 = 604_800;

/// Which commands are suspended, and until when. Nothing is kept across restarts. Names
/// are in lower case.
#[derive(Debug, Clone)]
pub struct SuspensionManager {
    expiries: Table<Instant>,
}

/// The points in time until which commands are suspended, by name.
pub open spec fn expiry_map(t: Table<Instant>) -> Map<Seq<char>, int> {
    t@.map_values(|i: Instant| i@)
}

/// How long a command is still suspended, in nanoseconds.
pub open spec fn remaining(m: Map<Seq<char>, int>, key: Seq<char>, now: int) -> Option<int> {
    if m.contains_key(text::lower(key)) && m[text::lower(key)] > now {
        Some(m[text::lower(key)] - now)
    } else {
        None
    }
}

impl SuspensionManager {
    pub closed spec fn wf(&self) -> bool {
        self.expiries.wf()
    }

    /// When each suspension ends.
    pub closed spec fn view(&self) -> Map<Seq<char>, int> {
        expiry_map(self.expiries)
    }

    pub fn new() -> (r: SuspensionManager)
        ensures
            r.wf(),
            r@ == Map::<Seq<char>, int>::empty(),
    {
        let r = SuspensionManager { expiries: Table::new() };
        assert(r@ =~= Map::<Seq<char>, int>::empty());
        r
    }

    /// Suspends a command for a duration, in place of any suspension that it has.
    pub fn suspend(&mut self, key: &str, duration: Duration, now: Instant)
        requires
            old(self).wf(),
            now@ + duration@ <= u128::MAX,
        ensures
            final(self).wf(),
            final(self)@ == old(self)@.insert(text::lower(key@), now@ + duration@),
    {
        let key = text::to_ascii_lowercase(key);
        let ghost k = key@;
        let expiry = Instant { nanos: now.nanos + duration.nanos };
        self.expiries.insert(key, expiry);
        assert(self@ =~= old(self)@.insert(k, expiry@));
    }

    /// Removes the suspension of a command. Says whether it was still in force.
    pub fn unsuspend(&mut self, key: &str, now: Instant) -> (r: bool)
        requires
            old(self).wf(),
        ensures
            final(self).wf(),
            final(self)@ == old(self)@.remove(text::lower(key@)),
            r == (remaining(old(self)@, key@, now@) is Some),
    {
        let key = text::to_ascii_lowercase(key);
        let gone = self.expiries.remove(key.as_str());
        assert(self@ =~= old(self)@.remove(key@));
        match gone {
            Some(expiry) => expiry.nanos > now.nanos,
            None => false,
        }
    }

    /// How long a command is still suspended; `None` where it is not.
    pub fn is_suspended(&self, key: &str, now: Instant) -> (r: Option<Duration>)
        requires
            self.wf(),
        ensures
            match r {
                Some(d) => remaining(self@, key@, now@) == Some(d@),
                None => remaining(self@, key@, now@) is None,
            },
    {
        let key = text::to_ascii_lowercase(key);
        match self.expiries.get(key.as_str()) {
            Some(expiry) => if expiry.nanos > now.nanos {
                Some(Duration { nanos: expiry.nanos - now.nanos })
            } else {
                None
            },
            None => None,
        }
    }
}

/// A command that was just suspended is suspended for just that long, whatever the case
/// in which its name is written; other commands are not touched.
pub proof fn law_suspend_then_suspended(
    m: Map<Seq<char>, int>,
    key: Seq<char>,
    asked: Seq<char>,
    now: int,
    duration: int,
    later: int,
)
    requires
        duration > 0,
    ensures
        ({
            let after = m.insert(text::lower(key), now + duration);
            &&& text::lower(asked) == text::lower(key) && later < now + duration ==> remaining(
                after,
                asked,
                later,
            ) == Some(now + duration - later)
            &&& text::lower(asked) == text::lower(key) && later >= now + duration ==> remaining(
                after,
                asked,
                later,
            ) is None
            &&& text::lower(asked) != text::lower(key) ==> remaining(after, asked, later)
                == remaining(m, asked, later)
        }),
{
}

/// A command that was just released is not suspended.
pub proof fn law_unsuspend_then_free(
    m: Map<Seq<char>, int>,
    key: Seq<char>,
    asked: Seq<char>,
    now: int,
)
    requires
        text::lower(asked) == text::lower(key),
    ensures
        remaining(m.remove(text::lower(key)), asked, now) is None,
{
}

// ---------------------------------------------------------------------------
// Durations
// ---------------------------------------------------------------------------

/// Why a duration could not be read.
#[derive(Debug, Clone, Copy, PartialEq, Eq, Structural)]
pub enum ParseDurationError {
    /// Nothing but white space.
    Empty,
    /// No number, or one that is too large.
    InvalidNumber,
    /// A unit other than `s`, `m`, `h` and `d`.
    UnknownUnit,
    /// No time at all.
    Zero,
    /// More than the maximum.
    TooLong,
}

impl ParseDurationError {
    pub open spec fn text(self) -> Seq<char> {
        match self {
            ParseDurationError::Empty => "duration is empty"@,
            ParseDurationError::InvalidNumber => "invalid number"@,
            ParseDurationError::UnknownUnit => "unknown unit (use s, m, h, or d)"@,
            ParseDurationError::Zero => "duration must be greater than zero"@,
            ParseDurationError::TooLong => "duration exceeds maximum of 7 days"@,
        }
    }

    /// The message of the error.
    pub fn to_text(&self) -> (r: &'static str)
        ensures
            r@ == self.text(),
    {
        match self {
            ParseDurationError::Empty => "duration is empty",
            ParseDurationError::InvalidNumber => "invalid number",
            ParseDurationError::UnknownUnit => "unknown unit (use s, m, h, or d)",
            ParseDurationError::Zero => "duration must be greater than zero",
            ParseDurationError::TooLong => "duration exceeds maximum of 7 days",
        }
    }
}

/// The seconds of a unit.
pub open spec fn unit_secs(c: char) -> Option<nat> {
    if c == 's' {
        Some(1nat)
    } else if c == 'm' {
        Some(60nat)
    } else if c == 'h' {
        Some(3600nat)
    } else if c == 'd' {
        Some(86_400nat)
    } else {
        None
    }
}

/// The seconds that a number stands for, times the seconds of its unit.
pub open spec fn scaled_secs(digits: Seq<char>, unit: nat) -> Result<nat, ParseDurationError> {
    if !text::is_digits(digits) || text::digits_value(digits) > u64::MAX || text::digits_value(
        digits,
    ) * unit > u64::MAX {
        Err(ParseDurationError::InvalidNumber)
    } else {
        let secs = text::digits_value(digits) * unit;
        if secs == 0 {
            Err(ParseDurationError::Zero)
        } else if secs > MAX_SUSPEND_DURATION {
            Err(ParseDurationError::TooLong)
        } else {
            Ok(secs)
        }
    }
}

/// The seconds that a duration such as `30s`, `10m`, `2h`, `1d` or `90` stands for.
pub open spec fn duration_secs(input: Seq<char>) -> Result<nat, ParseDurationError> {
    let s = text::trim(input);
    if s.len() == 0 {
        Err(ParseDurationError::Empty)
    } else if text::is_digit(s.last()) {
        scaled_secs(s, 1)
    } else {
        match unit_secs(s.last()) {
            Some(unit) => scaled_secs(s.drop_last(), unit),
            None => Err(ParseDurationError::UnknownUnit),
        }
    }
}

pub open spec fn secs_view(r: Result<Duration, ParseDurationError>) -> Result<
    int,
    ParseDurationError,
> {
    match r {
        Ok(d) => Ok(d@),
        Err(e) => Err(e),
    }
}

/// The nanoseconds of a number of seconds.
pub open spec fn in_nanos(r: Result<nat, ParseDurationError>) -> Result<int, ParseDurationError> {
    match r {
        Ok(n) => Ok(n as int * 1_000_000_000),
        Err(e) => Err(e),
    }
}

fn scale(digits: &str, unit: u64) -> (r: Result<Duration, ParseDurationError>)
    requires
        0 < unit <= 86_400,
    ensures
        secs_view(r) == in_nanos(scaled_secs(digits@, unit as nat)),
{
    let v = text::chars_of(digits);
    if v.len() == 0 || v[0] == '+' {
        assert(!text::is_digits(digits@)) by {
            if digits@.len() > 0 {
                assert(!text::is_digit(digits@[0]));
            }
        }
        return Err(ParseDurationError::InvalidNumber);
    }
    let n: u64 = match text::parse_unsigned(digits, u64::MAX) {
        Some(n) => n,
        None => {
            return Err(ParseDurationError::InvalidNumber);
        },
    };
    proof {
        assert(0 <= n * unit <= u64::MAX * 86_400) by (nonlinear_arith)
            requires
                0 <= n <= u64::MAX,
                0 < unit <= 86_400,
        ;
    }
    let product: u128 = n as u128 * unit as u128;
    if product > u64::MAX as u128 {
        return Err(ParseDurationError::InvalidNumber);
    }
    if product == 0 {
        return Err(ParseDurationError::Zero);
    }
    if product > MAX_SUSPEND_DURATION as u128 {
        return Err(ParseDurationError::TooLong);
    }
    Ok(Duration::from_secs(product as u64))
}

/// Parses a duration: `30s`, `10m`, `2h`, `1d`, or a bare number of seconds, from one
/// second to 7 days.
pub fn parse_duration(input: &str) -> (r: Result<Duration, ParseDurationError>)
    ensures
        secs_view(r) == in_nanos(duration_secs(input@)),
{
    let s = text::trimmed(input);
    let v = text::chars_of(s.as_str());
    if v.len() == 0 {
        return Err(ParseDurationError::Empty);
    }
    let last = v[v.len() - 1];
    if text::is_ascii_digit(last) {
        return scale(s.as_str(), 1);
    }
    let unit: u64 = if last == 's' {
        1
    } else if last == 'm' {
        60
    } else if last == 'h' {
        3600
    } else if last == 'd' {
        86_400
    } else {
        return Err(ParseDurationError::UnknownUnit);
    };
    let digits = text::string_of(&v, 0, v.len() - 1);
    assert(v@.subrange(0, v@.len() - 1) =~= v@.drop_last());
    scale(digits.as_str(), unit)
}

/// What is read as a duration is more than nothing and at most 7 days.
pub proof fn law_duration_in_range(input: Seq<char>)
    ensures
        duration_secs(input) matches Ok(secs) ==> 0 < secs <= MAX_SUSPEND_DURATION,
{
}

/// White space around a duration does not matter.
pub proof fn law_duration_ignores_white_space(input: Seq<char>)
    ensures
        duration_secs(text::trim(input)) == duration_secs(input),
{
    text::lemma_trim_idempotent(input);
}


/// A number with `s`, `m`, `h` or `d` behind it stands for so many seconds, minutes, hours or
/// days, and a bare one for seconds, up to a week; nothing and more than a week are refused.
pub proof fn law_units_are_read(digits: Seq<char>)
    requires
        text::is_digits(digits),
        text::digits_value(digits) * 86_400 <= u64::MAX,
    ensures
        ({
            let n = text::digits_value(digits);
            let in_range = |secs: nat| if secs == 0 {
                Err::<nat, ParseDurationError>(ParseDurationError::Zero)
            } else if secs > 604_800 {
                Err(ParseDurationError::TooLong)
            } else {
                Ok(secs)
            };
            &&& duration_secs(digits) == in_range(n)
            &&& duration_secs(digits.push('s')) == in_range(n)
            &&& duration_secs(digits.push('m')) == in_range(60 * n)
            &&& duration_secs(digits.push('h')) == in_range(3600 * n)
            &&& duration_secs(digits.push('d')) == in_range(86_400 * n)
        }),
{
    lemma_untrimmed(digits);
    lemma_untrimmed(digits.push('s'));
    lemma_untrimmed(digits.push('m'));
    lemma_untrimmed(digits.push('h'));
    lemma_untrimmed(digits.push('d'));
    assert(text::is_digit(digits.last()));
    assert(digits.push('s').drop_last() =~= digits);
    assert(digits.push('m').drop_last() =~= digits);
    assert(digits.push('h').drop_last() =~= digits);
    assert(digits.push('d').drop_last() =~= digits);
}

proof fn lemma_untrimmed(s: Seq<char>)
    requires
        s.len() > 0,
        text::is_digit(s[0]),
        !text::is_white(s.last()),
    ensures
        text::trim(s) == s,
{
    text::lemma_leading_white_is(s, 0);
    assert(text::trim_start(s) =~= s);
    text::lemma_trimmed_len_is(s, s.len());
    assert(text::trim_end(s) =~= s);
}

/// A command is suspended until the end that is noted for its name, whatever the case, and
/// for as long as that is ahead.
pub proof fn law_suspension_ends(m: Map<Seq<char>, int>, key: Seq<char>, now: int)
    ensures
        remaining(m, key, now) matches Some(left) ==> left > 0 && m.contains_key(text::lower(key))
            && now + left == m[text::lower(key)],
        remaining(m, key, now) is None <==> !m.contains_key(text::lower(key)) || m[text::lower(key)]
            <= now,
{
}

} // verus!

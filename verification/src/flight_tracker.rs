//! The flight tracker: which flights are tracked, what a poll changes about them and
//! what the chat is told.
use vstd::prelude::*;
use crate::aviation::{AltBaro, NearbyAircraft};
use crate::text;
use crate::time;
use crate::time::{Duration, TimeDelta, Timestamp};

verus! {

/// Maximum number of simultaneously tracked flights.
pub const MAX_TRACKED_FLIGHTS: usize = 12;

/// Maximum number of flights a single user can track.
pub const MAX_FLIGHTS_PER_USER: usize = 3;

/// Vertical rate above which an aircraft is climbing, in feet per minute.
pub const CLIMB_RATE_THRESHOLD: i64 = 500;

/// Vertical rate below which an aircraft is descending, in feet per minute.
pub const DESCENT_RATE_THRESHOLD: i64 = -500;

/// Absolute vertical rate below which cruise is possible, in feet per minute.
pub const CRUISE_RATE_THRESHOLD: i64 = 300;

/// Minimum altitude for cruise detection, in feet.
pub const CRUISE_MIN_ALTITUDE: i64 = 10_000;

/// Maximum altitude for approach detection, in feet.
pub const APPROACH_MAX_ALTITUDE: i64 = 10_000;

/// Maximum altitude that counts as on the ground, in feet.
pub const GROUND_MAX_ALTITUDE: i64 = 200;

/// Maximum ground speed that counts as on the ground, in thousandths of a knot.
pub const GROUND_MAX_SPEED: i64 = 30_000;

/// Minimum ground speed for takeoff detection, in thousandths of a knot.
pub const TAKEOFF_MIN_SPEED: i64 = 60_000;

/// Number of stable polls required before declaring cruise.
pub const CRUISE_STABLE_POLLS: u32 = 2;

/// Seconds without data before tracking counts as lost.
pub const TRACKING_LOST_THRESHOLD: u64 = 300;

/// Seconds without data before a flight is removed.
pub const TRACKING_LOST_REMOVAL: u64 = 1800;

/// Seconds between polls while something is happening.
pub const POLL_FAST: u64 = 30;

/// Seconds between polls while a flight climbs or descends.
pub const POLL_NORMAL: u64 = 60;

/// Seconds between polls otherwise.
pub const POLL_SLOW: u64 = 120;

/// Timeout of a single adsb.lol request, in seconds.
pub const POLL_TIMEOUT: u64 = 10;

/// Timeout of a route request, in seconds.
pub const ROUTE_FETCH_TIMEOUT: u64 = 5;

/// Angle off the course to the destination from which a poll counts as off course, in
/// thousandths of a degree.
pub const DIVERT_BEARING_THRESHOLD: i64 = 90_000;

/// Number of polls off course in a row after which a divert is reported.
pub const DIVERT_CONSECUTIVE_POLLS: u32 = 3;

pub const SQUAWK_HIJACK: &'static str = "7500";

pub const SQUAWK_RADIO_FAILURE: &'static str = "7600";

pub const SQUAWK_EMERGENCY: &'static str = "7700";

// ---------------------------------------------------------------------------
// Identifiers
// ---------------------------------------------------------------------------

/// Identifies a flight either by callsign or ICAO24 hex code.
#[derive(Debug, Clone, PartialEq)]
pub enum FlightIdentifier {
    Callsign(String),
    Hex(String),
}

/// The contents of a `FlightIdentifier`.
#[verifier::ext_equal]
pub ghost enum Identifier {
    Callsign(Seq<char>),
    Hex(Seq<char>),
}

impl Identifier {
    pub open spec fn name(self) -> Seq<char> {
        match self {
            Identifier::Callsign(s) => s,
            Identifier::Hex(s) => s,
        }
    }
}

/// What an input identifies: six hex digits are an ICAO24 code, all else a callsign.
pub open spec fn identifier_of(input: Seq<char>) -> Identifier {
    let upper = text::unicode_upper(text::trim(input));
    if upper.len() == 6 && (forall|i: int| 0 <= i < 6 ==> text::is_hex(#[trigger] upper[i])) {
        Identifier::Hex(upper)
    } else {
        Identifier::Callsign(upper)
    }
}

/// Whether an identifier names the flight with the given callsign or hex code.
pub open spec fn names(id: Identifier, callsign: Option<Seq<char>>, hex: Option<Seq<char>>) -> bool {
    match id {
        Identifier::Callsign(s) => callsign is Some && text::same_ignore_case(callsign->0, s),
        Identifier::Hex(s) => hex is Some && text::same_ignore_case(hex->0, s),
    }
}

/// Whether all characters are hexadecimal digits and there are six of them.
fn is_icao24(s: &str) -> (r: bool)
    ensures
        r == (s@.len() == 6 && (forall|i: int| 0 <= i < 6 ==> text::is_hex(#[trigger] s@[i]))),
{
    let v = text::chars_of(s);
    if v.len() != 6 {
        return false;
    }
    let mut i: usize = 0;
    while i < 6
        invariant
            v@ == s@,
            v@.len() == 6,
            i <= 6,
            forall|j: int| 0 <= j < i ==> text::is_hex(#[trigger] v@[j]),
        decreases 6 - i,
    {
        if !text::is_ascii_hex(v[i]) {
            return false;
        }
        i = i + 1;
    }
    true
}

impl FlightIdentifier {
    pub open spec fn view(&self) -> Identifier {
        match self {
            FlightIdentifier::Callsign(s) => Identifier::Callsign(s@),
            FlightIdentifier::Hex(s) => Identifier::Hex(s@),
        }
    }

    /// Parses user input. Six hexadecimal digits are an ICAO24 hex code; everything else
    /// is a callsign. White space around the input is dropped and letters become upper
    /// case.
    pub fn parse(input: &str) -> (r: FlightIdentifier)
        ensures
            r@ == identifier_of(input@),
            text::upper_known(text::trim(input@)),
    {
        let trimmed = text::trimmed(input);
        let upper = text::to_uppercase(trimmed.as_str());
        FlightIdentifier::of_upper(upper)
    }

    /// The identifier for an input that is already trimmed and in upper case.
    pub fn of_upper(upper: String) -> (r: FlightIdentifier)
        ensures
            r@ == if upper@.len() == 6 && (forall|i: int|
                0 <= i < 6 ==> text::is_hex(#[trigger] upper@[i])) {
                Identifier::Hex(upper@)
            } else {
                Identifier::Callsign(upper@)
            },
    {
        if is_icao24(upper.as_str()) {
            FlightIdentifier::Hex(upper)
        } else {
            FlightIdentifier::Callsign(upper)
        }
    }

    /// The callsign or hex code.
    pub fn as_str(&self) -> (r: &str)
        ensures
            r@ == self@.name(),
    {
        match self {
            FlightIdentifier::Callsign(s) => s.as_str(),
            FlightIdentifier::Hex(s) => s.as_str(),
        }
    }

    /// Whether this identifier names a flight with the given callsign or hex code.
    pub fn matches(&self, callsign: Option<&str>, hex: Option<&str>) -> (r: bool)
        ensures
            r == names(self@, text::opt_str_view(callsign), text::opt_str_view(hex)),
    {
        match self {
            FlightIdentifier::Callsign(s) => match callsign {
                Some(cs) => text::eq_ignore_ascii_case(cs, s.as_str()),
                None => false,
            },
            FlightIdentifier::Hex(s) => match hex {
                Some(h) => text::eq_ignore_ascii_case(h, s.as_str()),
                None => false,
            },
        }
    }

    /// The display text: the callsign or hex code.
    pub fn to_text(&self) -> (r: String)
        ensures
            r@ == self@.name(),
    {
        self.as_str().to_owned()
    }

    pub fn copy(&self) -> (r: FlightIdentifier)
        ensures
            r@ == self@,
    {
        match self {
            FlightIdentifier::Callsign(s) => FlightIdentifier::Callsign(s.clone()),
            FlightIdentifier::Hex(s) => FlightIdentifier::Hex(s.clone()),
        }
    }

    /// Whether two identifiers are the same.
    pub fn same(&self, other: &FlightIdentifier) -> (r: bool)
        ensures
            r == (self@ == other@),
    {
        match self {
            FlightIdentifier::Callsign(a) => match other {
                FlightIdentifier::Callsign(b) => text::same(a.as_str(), b.as_str()),
                FlightIdentifier::Hex(b) => false,
            },
            FlightIdentifier::Hex(a) => match other {
                FlightIdentifier::Callsign(b) => false,
                FlightIdentifier::Hex(b) => text::same(a.as_str(), b.as_str()),
            },
        }
    }
}

// ---------------------------------------------------------------------------
// Flights
// ---------------------------------------------------------------------------

/// Detected flight phase.
#[derive(Debug, Clone, Copy, PartialEq, Eq, Structural)]
pub enum FlightPhase {
    Unknown,
    Ground,
    Takeoff,
    Climb,
    Cruise,
    Descent,
    Approach,
    Landing,
}

pub open spec fn phase_text(p: FlightPhase) -> Seq<char> {
    match p {
        FlightPhase::Unknown => "Unknown"@,
        FlightPhase::Ground => "Ground"@,
        FlightPhase::Takeoff => "Takeoff"@,
        FlightPhase::Climb => "Climb"@,
        FlightPhase::Cruise => "Cruise"@,
        FlightPhase::Descent => "Descent"@,
        FlightPhase::Approach => "Approach"@,
        FlightPhase::Landing => "Landing"@,
    }
}

impl FlightPhase {
    /// The display text of the phase.
    pub fn to_text(&self) -> (r: &'static str)
        ensures
            r@ == phase_text(*self),
    {
        match self {
            FlightPhase::Unknown => "Unknown",
            FlightPhase::Ground => "Ground",
            FlightPhase::Takeoff => "Takeoff",
            FlightPhase::Climb => "Climb",
            FlightPhase::Cruise => "Cruise",
            FlightPhase::Descent => "Descent",
            FlightPhase::Approach => "Approach",
            FlightPhase::Landing => "Landing",
        }
    }
}

/// State of a single tracked flight. Speeds are thousandths of a knot and positions
/// millionths of a degree.
#[derive(Debug, Clone)]
pub struct TrackedFlight {
    pub identifier: FlightIdentifier,
    pub callsign: Option<String>,
    pub hex: Option<String>,
    pub phase: FlightPhase,
    /// Origin and destination, as IATA codes.
    pub route: Option<(String, String)>,
    pub aircraft_type: Option<String>,
    pub altitude_ft: Option<i64>,
    pub vertical_rate_fpm: Option<i64>,
    pub ground_speed_kts: Option<i64>,
    pub lat: Option<i64>,
    pub lon: Option<i64>,
    pub squawk: Option<String>,
    pub tracked_by: String,
    pub tracked_at: Timestamp,
    pub last_seen: Option<Timestamp>,
    pub last_phase_change: Option<Timestamp>,
    pub polls_since_change: u32,
    pub divert_consecutive_polls: u32,
    pub dest_lat: Option<i64>,
    pub dest_lon: Option<i64>,
}

/// The contents of a `TrackedFlight`.
#[verifier::ext_equal]
pub ghost struct Flight {
    pub identifier: Identifier,
    pub callsign: Option<Seq<char>>,
    pub hex: Option<Seq<char>>,
    pub phase: FlightPhase,
    pub route: Option<(Seq<char>, Seq<char>)>,
    pub aircraft_type: Option<Seq<char>>,
    pub altitude_ft: Option<i64>,
    pub vertical_rate_fpm: Option<i64>,
    pub ground_speed_kts: Option<i64>,
    pub lat: Option<i64>,
    pub lon: Option<i64>,
    pub squawk: Option<Seq<char>>,
    pub tracked_by: Seq<char>,
    pub tracked_at: Timestamp,
    pub last_seen: Option<Timestamp>,
    pub last_phase_change: Option<Timestamp>,
    pub polls_since_change: u32,
    pub divert_consecutive_polls: u32,
    pub dest_lat: Option<i64>,
    pub dest_lon: Option<i64>,
}

impl TrackedFlight {
    pub open spec fn view(&self) -> Flight {
        Flight {
            identifier: self.identifier@,
            callsign: text::opt_view(self.callsign),
            hex: text::opt_view(self.hex),
            phase: self.phase,
            route: text::pair_view(self.route),
            aircraft_type: text::opt_view(self.aircraft_type),
            altitude_ft: self.altitude_ft,
            vertical_rate_fpm: self.vertical_rate_fpm,
            ground_speed_kts: self.ground_speed_kts,
            lat: self.lat,
            lon: self.lon,
            squawk: text::opt_view(self.squawk),
            tracked_by: self.tracked_by@,
            tracked_at: self.tracked_at,
            last_seen: self.last_seen,
            last_phase_change: self.last_phase_change,
            polls_since_change: self.polls_since_change,
            divert_consecutive_polls: self.divert_consecutive_polls,
            dest_lat: self.dest_lat,
            dest_lon: self.dest_lon,
        }
    }
}

/// All tracked flights.
#[derive(Debug, Clone)]
pub struct FlightTrackerState {
    pub flights: Vec<TrackedFlight>,
}

/// The contents of a list of flights.
pub open spec fn flights_of(flights: Seq<TrackedFlight>) -> Seq<Flight> {
    Seq::new(flights.len(), |i: int| flights[i]@)
}

impl FlightTrackerState {
    pub open spec fn view(&self) -> Seq<Flight> {
        flights_of(self.flights@)
    }
}

// ---------------------------------------------------------------------------
// Phase detection
// ---------------------------------------------------------------------------

/// Ground speed, or zero where it is not reported.
pub open spec fn speed(ac: crate::aviation::Aircraft) -> int {
    match ac.gs {
        Some(gs) => gs as int,
        None => 0,
    }
}

pub open spec fn on_ground(ac: crate::aviation::Aircraft) -> bool {
    match ac.alt_baro {
        Some(AltBaro::Ground) => true,
        Some(AltBaro::Feet(ft)) => ft < GROUND_MAX_ALTITUDE && speed(ac) < GROUND_MAX_SPEED,
        None => false,
    }
}

pub open spec fn altitude(ac: crate::aviation::Aircraft) -> Option<i64> {
    match ac.alt_baro {
        Some(AltBaro::Feet(ft)) => Some(ft),
        Some(AltBaro::Ground) => Some(0i64),
        None => None,
    }
}

pub open spec fn climb_rate(ac: crate::aviation::Aircraft) -> Option<i64> {
    match ac.baro_rate {
        Some(r) => Some(r),
        None => ac.geom_rate,
    }
}

/// Whether the autopilot reports approach mode.
pub open spec fn approach_mode(ac: crate::aviation::Aircraft) -> bool {
    match ac.nav_modes {
        Some(modes) => modes.contains("approach"@),
        None => false,
    }
}

pub open spec fn grounded(p: FlightPhase) -> bool {
    p == FlightPhase::Ground || p == FlightPhase::Unknown
}

/// The phase that a flight in phase `phase`, with `polls` polls since the last change,
/// is in by the data of an aircraft.
pub open spec fn next_phase(
    phase: FlightPhase,
    polls: u32,
    ac: crate::aviation::Aircraft,
) -> FlightPhase {
    let rate = climb_rate(ac);
    let alt = altitude(ac);
    if on_ground(ac) {
        if grounded(phase) {
            FlightPhase::Ground
        } else {
            FlightPhase::Landing
        }
    } else if grounded(phase) && speed(ac) > TAKEOFF_MIN_SPEED && rate is Some && rate->0 > 0 {
        FlightPhase::Takeoff
    } else if rate is Some && rate->0 < DESCENT_RATE_THRESHOLD {
        if alt is Some && (alt->0 < APPROACH_MAX_ALTITUDE || approach_mode(ac) || phase
            == FlightPhase::Approach) {
            FlightPhase::Approach
        } else {
            FlightPhase::Descent
        }
    } else if approach_mode(ac) && rate is Some && rate->0 < 0 {
        FlightPhase::Approach
    } else if alt is Some && alt->0 > CRUISE_MIN_ALTITUDE && rate is Some
        && -CRUISE_RATE_THRESHOLD < rate->0 < CRUISE_RATE_THRESHOLD && polls
        >= CRUISE_STABLE_POLLS {
        FlightPhase::Cruise
    } else if rate is Some && rate->0 > CLIMB_RATE_THRESHOLD {
        FlightPhase::Climb
    } else {
        phase
    }
}

pub fn is_on_ground(ac: &NearbyAircraft) -> (r: bool)
    ensures
        r == on_ground(ac@),
{
    match ac.alt_baro {
        Some(AltBaro::Ground) => true,
        Some(AltBaro::Feet(ft)) => ft < GROUND_MAX_ALTITUDE && ac.gs.unwrap_or(0)
            < GROUND_MAX_SPEED,
        None => false,
    }
}

pub fn altitude_ft(ac: &NearbyAircraft) -> (r: Option<i64>)
    ensures
        r == altitude(ac@),
{
    match ac.alt_baro {
        Some(AltBaro::Feet(ft)) => Some(ft),
        Some(AltBaro::Ground) => Some(0),
        None => None,
    }
}

pub fn vertical_rate(ac: &NearbyAircraft) -> (r: Option<i64>)
    ensures
        r == climb_rate(ac@),
{
    match ac.baro_rate {
        Some(r) => Some(r),
        None => ac.geom_rate,
    }
}

/// Determines the flight phase from the current data and the previous phase.
pub fn detect_phase(flight: &TrackedFlight, ac: &NearbyAircraft) -> (r: FlightPhase)
    ensures
        r == next_phase(flight.phase, flight.polls_since_change, ac@),
{
    let alt = altitude_ft(ac);
    let vrate = vertical_rate(ac);
    let gs: i64 = ac.gs.unwrap_or(0);
    let has_approach_mode = match &ac.nav_modes {
        Some(modes) => text::is_one_of("approach", modes),
        None => false,
    };
    let was_grounded = flight.phase == FlightPhase::Ground || flight.phase == FlightPhase::Unknown;
    let rate: i64 = vrate.unwrap_or(0);

    // Landing: was airborne, now on the ground.
    if is_on_ground(ac) {
        if was_grounded {
            return FlightPhase::Ground;
        }
        return FlightPhase::Landing;
    }
    // Takeoff: was on the ground, now fast and climbing.
    if was_grounded && gs > TAKEOFF_MIN_SPEED && rate > 0 {
        return FlightPhase::Takeoff;
    }
    // Descent, or approach when low, in approach mode or already approaching.
    if let Some(vr) = vrate {
        if vr < DESCENT_RATE_THRESHOLD {
            if let Some(alt_val) = alt {
                if alt_val < APPROACH_MAX_ALTITUDE || has_approach_mode || flight.phase
                    == FlightPhase::Approach {
                    return FlightPhase::Approach;
                }
            }
            return FlightPhase::Descent;
        }
    }
    if has_approach_mode && rate < 0 {
        return FlightPhase::Approach;
    }
    // Cruise: level above the minimum altitude for enough polls.
    if let Some(alt_val) = alt {
        if let Some(vr) = vrate {
            if alt_val > CRUISE_MIN_ALTITUDE && -CRUISE_RATE_THRESHOLD < vr && vr
                < CRUISE_RATE_THRESHOLD && flight.polls_since_change >= CRUISE_STABLE_POLLS {
                return FlightPhase::Cruise;
            }
        }
    }
    if let Some(vr) = vrate {
        if vr > CLIMB_RATE_THRESHOLD {
            return FlightPhase::Climb;
        }
    }
    flight.phase
}

/// The meaning of an emergency squawk code.
pub open spec fn squawk_meaning(squawk: Seq<char>) -> Option<Seq<char>> {
    if squawk == SQUAWK_HIJACK@ {
        Some("Hijack"@)
    } else if squawk == SQUAWK_RADIO_FAILURE@ {
        Some("Radio Failure"@)
    } else if squawk == SQUAWK_EMERGENCY@ {
        Some("Emergency"@)
    } else {
        None
    }
}

pub fn emergency_squawk_meaning(squawk: &str) -> (r: Option<&'static str>)
    ensures
        text::opt_str_view(r) == squawk_meaning(squawk@),
{
    if text::same(squawk, SQUAWK_HIJACK) {
        Some("Hijack")
    } else if text::same(squawk, SQUAWK_RADIO_FAILURE) {
        Some("Radio Failure")
    } else if text::same(squawk, SQUAWK_EMERGENCY) {
        Some("Emergency")
    } else {
        None
    }
}

// ---------------------------------------------------------------------------
// Messages
// ---------------------------------------------------------------------------

/// A span of time as hours and minutes, or minutes below one hour.
pub open spec fn duration_text(nanos: int) -> Seq<char> {
    let secs = time::quot(nanos, 1_000_000_000);
    let hours = time::quot(secs, 3600);
    let mins = time::remainder(time::quot(secs, 60), 60);
    if hours > 0 {
        text::decimal(hours as nat) + "h"@ + text::two_digits(mins as nat) + "m"@
    } else {
        text::signed_decimal(mins) + "m"@
    }
}

/// Formats a span of time as `1h05m`, or `5m` below one hour.
pub fn format_duration_hm(d: TimeDelta) -> (r: String)
    requires
        -20_000_000_000_000_000_000_000 < d@ < 20_000_000_000_000_000_000_000,
    ensures
        r@ == duration_text(d@),
{
    let hours: i128 = d.num_hours();
    let total: i128 = d.num_minutes();
    let whole: i128 = time::quotient(total, 60);
    let mins: i128 = total - 60 * whole;
    if hours > 0 {
        assert(d@ >= 0);
        let mut s = text::from_u128(hours as u128);
        s.push_str("h");
        let m = text::from_two_digits(mins as u64);
        s.push_str(m.as_str());
        s.push_str("m");
        s
    } else {
        let mut s = text::from_i64(mins as i64);
        s.push_str("m");
        s
    }
}

/// An altitude as flight level from 1000 feet on, in feet below.
pub open spec fn alt_text(alt: Option<i64>) -> Seq<char> {
    match alt {
        Some(ft) => if ft >= 1000 {
            "FL"@ + text::decimal((ft / 100) as nat)
        } else {
            text::signed_decimal(ft as int) + "ft"@
        },
        None => "?"@,
    }
}

pub fn format_alt(alt: Option<i64>) -> (r: String)
    ensures
        r@ == alt_text(alt),
{
    match alt {
        Some(ft) => {
            if ft >= 1000 {
                let mut s = "FL".to_owned();
                let level: i64 = ft / 100;
                let d = text::from_u64(level as u64);
                s.push_str(d.as_str());
                s
            } else {
                let mut s = text::from_i64(ft);
                s.push_str("ft");
                s
            }
        },
        None => "?".to_owned(),
    }
}

pub open spec fn route_text(route: Option<(Seq<char>, Seq<char>)>) -> Seq<char> {
    match route {
        Some((orig, dest)) => " "@ + orig + "\u{2192}"@ + dest,
        None => Seq::empty(),
    }
}

/// Formats a route with a leading space, or nothing where it is unknown.
pub fn format_route(route: &Option<(String, String)>) -> (r: String)
    ensures
        r@ == route_text(text::pair_view(*route)),
{
    match route {
        Some((orig, dest)) => {
            let mut s = " ".to_owned();
            s.push_str(orig.as_str());
            s.push_str("\u{2192}");
            s.push_str(dest.as_str());
            s
        },
        None => String::new(),
    }
}

/// The callsign of a flight, or its identifier where the callsign is unknown.
pub open spec fn flight_name(f: Flight) -> Seq<char> {
    match f.callsign {
        Some(cs) => cs,
        None => f.identifier.name(),
    }
}

pub open spec fn type_text(t: Option<Seq<char>>) -> Seq<char> {
    match t {
        Some(t) => " ("@ + t + ")"@,
        None => Seq::empty(),
    }
}

/// Name, type and route of a flight, as far as they are known.
pub open spec fn prefix_text(f: Flight) -> Seq<char> {
    flight_name(f) + type_text(f.aircraft_type) + route_text(f.route)
}

impl TrackedFlight {
    /// The callsign, or the identifier where the callsign is unknown.
    pub fn name(&self) -> (r: &str)
        ensures
            r@ == flight_name(self@),
    {
        match &self.callsign {
            Some(cs) => cs.as_str(),
            None => self.identifier.as_str(),
        }
    }
}

/// Formats the name, type and route of a flight, as far as they are known.
pub fn format_flight_prefix(flight: &TrackedFlight) -> (r: String)
    ensures
        r@ == prefix_text(flight@),
{
    let mut s = flight.name().to_owned();
    let mut typ = String::new();
    if let Some(t) = &flight.aircraft_type {
        typ = " (".to_owned();
        typ.push_str(t.as_str());
        typ.push_str(")");
    }
    s.push_str(typ.as_str());
    let route = format_route(&flight.route);
    s.push_str(route.as_str());
    s
}

fn around(before: &str, middle: &str, after: &str) -> (r: String)
    ensures
        r@ == before@ + middle@ + after@,
{
    let mut s = before.to_owned();
    s.push_str(middle);
    s.push_str(after);
    s
}

pub open spec fn track_started_text(f: Flight) -> Seq<char> {
    "Tracke "@ + prefix_text(f) + " Okayge"@
}

pub fn msg_track_started(flight: &TrackedFlight) -> (r: String)
    ensures
        r@ == track_started_text(flight@),
{
    around("Tracke ", format_flight_prefix(flight).as_str(), " Okayge")
}

pub open spec fn takeoff_text(f: Flight) -> Seq<char> {
    prefix_text(f) + " ist gestartet! \u{2708}"@
}

pub fn msg_takeoff(flight: &TrackedFlight) -> (r: String)
    ensures
        r@ == takeoff_text(flight@),
{
    let mut s = format_flight_prefix(flight);
    s.push_str(" ist gestartet! \u{2708}");
    s
}

pub open spec fn cruise_text(f: Flight) -> Seq<char> {
    prefix_text(f) + " cruist auf "@ + alt_text(f.altitude_ft)
}

pub fn msg_cruise(flight: &TrackedFlight) -> (r: String)
    ensures
        r@ == cruise_text(flight@),
{
    let mut s = format_flight_prefix(flight);
    s.push_str(" cruist auf ");
    let alt = format_alt(flight.altitude_ft);
    s.push_str(alt.as_str());
    s
}

pub open spec fn descent_text(f: Flight) -> Seq<char> {
    prefix_text(f) + " hat Descent eingeleitet"@
}

pub fn msg_descent(flight: &TrackedFlight) -> (r: String)
    ensures
        r@ == descent_text(flight@),
{
    let mut s = format_flight_prefix(flight);
    s.push_str(" hat Descent eingeleitet");
    s
}

pub open spec fn approach_text(f: Flight) -> Seq<char> {
    prefix_text(f) + " ist im Approach"@
}

pub fn msg_approach(flight: &TrackedFlight) -> (r: String)
    ensures
        r@ == approach_text(flight@),
{
    let mut s = format_flight_prefix(flight);
    s.push_str(" ist im Approach");
    s
}

pub open spec fn landing_text(f: Flight, now: int) -> Seq<char> {
    prefix_text(f) + " ist gelandet! Flugzeit: "@ + duration_text(now - f.tracked_at@)
}

pub fn msg_landing(flight: &TrackedFlight, now: &Timestamp) -> (r: String)
    ensures
        r@ == landing_text(flight@, now@),
{
    let duration = now.since(&flight.tracked_at);
    let mut s = format_flight_prefix(flight);
    s.push_str(" ist gelandet! Flugzeit: ");
    let d = format_duration_hm(duration);
    s.push_str(d.as_str());
    s
}

pub open spec fn squawk_text(f: Flight, code: Seq<char>, meaning: Seq<char>) -> Seq<char> {
    "\u{26a0} "@ + prefix_text(f) + " squawkt "@ + code + "! ("@ + meaning + ")"@
}

pub fn msg_squawk_emergency(flight: &TrackedFlight, code: &str, meaning: &str) -> (r: String)
    ensures
        r@ == squawk_text(flight@, code@, meaning@),
{
    let mut s = around("\u{26a0} ", format_flight_prefix(flight).as_str(), " squawkt ");
    s.push_str(code);
    s.push_str("! (");
    s.push_str(meaning);
    s.push_str(")");
    s
}

pub open spec fn divert_text(f: Flight) -> Seq<char> {
    "\u{26a0} "@ + prefix_text(f) + " scheint zu diverten!"@
}

pub fn msg_possible_divert(flight: &TrackedFlight) -> (r: String)
    ensures
        r@ == divert_text(flight@),
{
    around("\u{26a0} ", format_flight_prefix(flight).as_str(), " scheint zu diverten!")
}

pub open spec fn lost_text(f: Flight) -> Seq<char> {
    flight_name(f) + " Signal verloren, wird nicht mehr getrackt"@
}

pub fn msg_tracking_lost(flight: &TrackedFlight) -> (r: String)
    ensures
        r@ == lost_text(flight@),
{
    let mut s = flight.name().to_owned();
    s.push_str(" Signal verloren, wird nicht mehr getrackt");
    s
}

/// A magnitude in thousandths, rounded to a whole number; a half goes to the even one.
pub open spec fn rounded(thousandths: nat) -> nat {
    let q = thousandths / 1000;
    let r = thousandths % 1000;
    if r > 500 || (r == 500 && q % 2 == 1) {
        q + 1
    } else {
        q
    }
}

/// A number of thousandths as a whole number, with its sign.
pub open spec fn rounded_text(thousandths: int) -> Seq<char> {
    if thousandths < 0 {
        "-"@ + text::decimal(rounded((-thousandths) as nat))
    } else {
        text::decimal(rounded(thousandths as nat))
    }
}

pub fn format_rounded(thousandths: i64) -> (r: String)
    ensures
        r@ == rounded_text(thousandths as int),
{
    let negative = thousandths < 0;
    let magnitude: u128 = if negative {
        (-(thousandths as i128)) as u128
    } else {
        thousandths as u128
    };
    let q: u128 = magnitude / 1000;
    let rest: u128 = magnitude % 1000;
    let whole: u128 = if rest > 500 || (rest == 500 && q % 2 == 1) {
        q + 1
    } else {
        q
    };
    let digits = text::from_u128(whole);
    if negative {
        let mut s = "-".to_owned();
        s.push_str(digits.as_str());
        s
    } else {
        digits
    }
}

pub open spec fn speed_text(gs: Option<i64>) -> Seq<char> {
    match gs {
        Some(gs) => " | "@ + rounded_text(gs as int) + "kts"@,
        None => Seq::empty(),
    }
}

pub open spec fn squawk_part(squawk: Option<Seq<char>>) -> Seq<char> {
    match squawk {
        Some(s) => " | Squawk "@ + s,
        None => Seq::empty(),
    }
}

pub open spec fn status_text(f: Flight, now: int) -> Seq<char> {
    prefix_text(f) + " | "@ + phase_text(f.phase) + " "@ + alt_text(f.altitude_ft) + speed_text(
        f.ground_speed_kts,
    ) + squawk_part(f.squawk) + " | seit "@ + duration_text(now - f.tracked_at@) + " getrackt"@
}

pub fn msg_flight_status(flight: &TrackedFlight, now: &Timestamp) -> (r: String)
    ensures
        r@ == status_text(flight@, now@),
{
    let mut s = format_flight_prefix(flight);
    s.push_str(" | ");
    s.push_str(flight.phase.to_text());
    s.push_str(" ");
    let alt = format_alt(flight.altitude_ft);
    s.push_str(alt.as_str());
    let mut speed_part = String::new();
    if let Some(gs) = flight.ground_speed_kts {
        speed_part = around(" | ", format_rounded(gs).as_str(), "kts");
    }
    s.push_str(speed_part.as_str());
    let mut squawk = String::new();
    if let Some(code) = &flight.squawk {
        squawk = " | Squawk ".to_owned();
        squawk.push_str(code.as_str());
    }
    s.push_str(squawk.as_str());
    s.push_str(" | seit ");
    let elapsed = format_duration_hm(now.since(&flight.tracked_at));
    s.push_str(elapsed.as_str());
    s.push_str(" getrackt");
    s
}

/// One entry of the list of flights.
pub open spec fn list_entry(f: Flight) -> Seq<char> {
    flight_name(f) + " ("@ + phase_text(f.phase) + " "@ + alt_text(f.altitude_ft) + ")"@
}

pub open spec fn list_text(flights: Seq<Flight>) -> Seq<char> {
    if flights.len() == 0 {
        "Keine Fl\u{00fc}ge getrackt"@
    } else {
        "Getrackte Fl\u{00fc}ge: "@ + text::join(
            Seq::new(flights.len(), |i: int| list_entry(flights[i])),
            " | "@,
        )
    }
}

pub fn msg_flights_list(flights: &Vec<TrackedFlight>) -> (r: String)
    ensures
        r@ == list_text(flights_of(flights@)),
{
    if flights.len() == 0 {
        return "Keine Fl\u{00fc}ge getrackt".to_owned();
    }
    let mut parts: Vec<String> = Vec::new();
    let mut i: usize = 0;
    while i < flights.len()
        invariant
            i <= flights@.len(),
            parts@.len() == i,
            forall|j: int| 0 <= j < i ==> (#[trigger] parts@[j])@ == list_entry(flights@[j]@),
        decreases flights@.len() - i,
    {
        let f = &flights[i];
        let mut s = around(f.name(), " (", f.phase.to_text());
        s.push_str(" ");
        let alt = format_alt(f.altitude_ft);
        s.push_str(alt.as_str());
        s.push_str(")");
        parts.push(s);
        i = i + 1;
    }
    let mut out = "Getrackte Fl\u{00fc}ge: ".to_owned();
    let list = text::joined(&parts, " | ");
    out.push_str(list.as_str());
    proof {
        let all = flights_of(flights@);
        assert(text::views(parts@) =~= Seq::new(all.len(), |i: int| list_entry(all[i])));
    }
    out
}

// ---------------------------------------------------------------------------
// Requests from chat
// ---------------------------------------------------------------------------

/// Whether a query names a flight by identifier, callsign or hex code.
pub open spec fn answers_to(f: Flight, query: Seq<char>) -> bool {
    ||| text::same_ignore_case(f.identifier.name(), query)
    ||| f.callsign is Some && text::same_ignore_case(f.callsign->0, query)
    ||| f.hex is Some && text::same_ignore_case(f.hex->0, query)
}

/// The position of the first flight that a query in upper case names.
pub open spec fn find_flight(flights: Seq<Flight>, upper: Seq<char>) -> Option<int>
    decreases flights.len(),
{
    if flights.len() == 0 {
        None
    } else if answers_to(flights[0], upper) {
        Some(0int)
    } else {
        match find_flight(flights.drop_first(), upper) {
            Some(i) => Some(i + 1),
            None => None,
        }
    }
}

pub proof fn lemma_find_flight(flights: Seq<Flight>, upper: Seq<char>)
    ensures
        match find_flight(flights, upper) {
            Some(i) => 0 <= i < flights.len() && answers_to(flights[i], upper) && forall|j: int|
                0 <= j < i ==> !answers_to(#[trigger] flights[j], upper),
            None => forall|j: int|
                0 <= j < flights.len() ==> !answers_to(#[trigger] flights[j], upper),
        },
    decreases flights.len(),
{
    if flights.len() > 0 && !answers_to(flights[0], upper) {
        let rest = flights.drop_first();
        lemma_find_flight(rest, upper);
        match find_flight(rest, upper) {
            Some(i) => {
                assert forall|j: int| 0 <= j < i + 1 implies !answers_to(
                    #[trigger] flights[j],
                    upper,
                ) by {
                    if j > 0 {
                        assert(flights[j] == rest[j - 1]);
                    }
                }
            },
            None => {
                assert forall|j: int| 0 <= j < flights.len() implies !answers_to(
                    #[trigger] flights[j],
                    upper,
                ) by {
                    if j > 0 {
                        assert(flights[j] == rest[j - 1]);
                    }
                }
            },
        }
    }
}

proof fn lemma_find_flight_is(flights: Seq<Flight>, upper: Seq<char>, r: Option<int>)
    requires
        match r {
            Some(i) => 0 <= i < flights.len() && answers_to(flights[i], upper) && forall|j: int|
                0 <= j < i ==> !answers_to(#[trigger] flights[j], upper),
            None => forall|j: int|
                0 <= j < flights.len() ==> !answers_to(#[trigger] flights[j], upper),
        },
    ensures
        find_flight(flights, upper) == r,
{
    lemma_find_flight(flights, upper);
    match (find_flight(flights, upper), r) {
        (Some(a), Some(b)) => {
            if a < b {
                assert(!answers_to(flights[a], upper));
            }
            if b < a {
                assert(!answers_to(flights[b], upper));
            }
        },
        (Some(a), None) => {
            assert(!answers_to(flights[a], upper));
        },
        (None, Some(b)) => {
            assert(!answers_to(flights[b], upper));
        },
        (None, None) => {},
    }
}

fn flight_answers(f: &TrackedFlight, upper: &str) -> (r: bool)
    ensures
        r == answers_to(f@, upper@),
{
    if text::eq_ignore_ascii_case(f.identifier.as_str(), upper) {
        return true;
    }
    if let Some(cs) = &f.callsign {
        if text::eq_ignore_ascii_case(cs.as_str(), upper) {
            return true;
        }
    }
    match &f.hex {
        Some(h) => text::eq_ignore_ascii_case(h.as_str(), upper),
        None => false,
    }
}

pub open spec fn opt_index(r: Option<usize>) -> Option<int> {
    match r {
        Some(i) => Some(i as int),
        None => None,
    }
}

/// Finds a tracked flight by identifier, callsign or hex code, whatever the case.
pub fn find_flight_index(flights: &Vec<TrackedFlight>, query: &str) -> (r: Option<usize>)
    ensures
        opt_index(r) == find_flight(flights_of(flights@), text::unicode_upper(query@)),
        r is Some ==> r->0 < flights@.len(),
        text::upper_known(query@),
{
    let upper = text::to_uppercase(query);
    let ghost all = flights_of(flights@);
    let mut i: usize = 0;
    while i < flights.len()
        invariant
            all == flights_of(flights@),
            i <= flights@.len(),
            upper@ == text::unicode_upper(query@),
            text::upper_known(query@),
            forall|j: int| 0 <= j < i ==> !answers_to(#[trigger] all[j], upper@),
        decreases flights@.len() - i,
    {
        if flight_answers(&flights[i], upper.as_str()) {
            proof {
                assert(answers_to(all[i as int], upper@));
                lemma_find_flight_is(all, upper@, Some(i as int));
            }
            return Some(i);
        }
        assert(!answers_to(all[i as int], upper@));
        i = i + 1;
    }
    proof {
        lemma_find_flight_is(all, upper@, None);
    }
    None
}

/// How many flights a user tracks.
pub open spec fn count_by(flights: Seq<Flight>, user: Seq<char>) -> nat
    decreases flights.len(),
{
    if flights.len() == 0 {
        0
    } else {
        count_by(flights.drop_last(), user) + if flights.last().tracked_by == user {
            1nat
        } else {
            0nat
        }
    }
}

/// The limits that every request keeps: so many flights in all, so many for each user.
pub open spec fn within_limits(flights: Seq<Flight>) -> bool {
    &&& flights.len() <= MAX_TRACKED_FLIGHTS
    &&& forall|user: Seq<char>| #[trigger] count_by(flights, user) <= MAX_FLIGHTS_PER_USER
}

fn count_tracked_by(flights: &Vec<TrackedFlight>, user: &str) -> (r: usize)
    ensures
        r == count_by(flights_of(flights@), user@),
{
    let ghost all = flights_of(flights@);
    let mut n: usize = 0;
    let mut i: usize = 0;
    while i < flights.len()
        invariant
            all == flights_of(flights@),
            n <= i <= flights@.len(),
            n == count_by(all.take(i as int), user@),
        decreases flights@.len() - i,
    {
        assert(all.take(i + 1).drop_last() =~= all.take(i as int));
        if text::same(flights[i].tracked_by.as_str(), user) {
            n = n + 1;
        }
        i = i + 1;
    }
    assert(all.take(i as int) =~= all);
    n
}

/// Whether a flight is one that an identifier names.
pub open spec fn is_tracked_as(f: Flight, id: Identifier) -> bool {
    f.identifier == id || names(id, f.callsign, f.hex)
}

pub open spec fn already_tracked(flights: Seq<Flight>, id: Identifier) -> bool {
    exists|i: int| 0 <= i < flights.len() && #[trigger] is_tracked_as(flights[i], id)
}

fn some_tracked_as(flights: &Vec<TrackedFlight>, id: &FlightIdentifier) -> (r: bool)
    ensures
        r == already_tracked(flights_of(flights@), id@),
{
    let ghost all = flights_of(flights@);
    let mut i: usize = 0;
    while i < flights.len()
        invariant
            all == flights_of(flights@),
            i <= flights@.len(),
            forall|j: int| 0 <= j < i ==> !#[trigger] is_tracked_as(all[j], id@),
        decreases flights@.len() - i,
    {
        let f = &flights[i];
        let callsign = match &f.callsign {
            Some(s) => Some(s.as_str()),
            None => None,
        };
        let hex = match &f.hex {
            Some(s) => Some(s.as_str()),
            None => None,
        };
        if f.identifier.same(id) || id.matches(callsign, hex) {
            assert(is_tracked_as(all[i as int], id@));
            return true;
        }
        assert(!is_tracked_as(all[i as int], id@));
        i = i + 1;
    }
    false
}

/// Which aircraft to ask adsb.lol for.
#[derive(Debug, Clone)]
pub enum AircraftQuery {
    ByHex(String),
    ByCallsign(String),
}

/// The contents of an `AircraftQuery`.
#[verifier::ext_equal]
pub ghost enum Query {
    ByHex(Seq<char>),
    ByCallsign(Seq<char>),
}

impl AircraftQuery {
    pub open spec fn view(&self) -> Query {
        match self {
            AircraftQuery::ByHex(s) => Query::ByHex(s@),
            AircraftQuery::ByCallsign(s) => Query::ByCallsign(s@),
        }
    }
}

/// The answer to a request to track a flight: a reply, or the aircraft to look up first.
#[derive(Debug, Clone)]
pub enum TrackStart {
    Reply(String),
    LookUp(AircraftQuery),
}

/// What a request to track a flight starts with.
pub open spec fn track_start(flights: Seq<Flight>, id: Identifier, user: Seq<char>) -> Result<
    Query,
    Seq<char>,
> {
    if flights.len() >= MAX_TRACKED_FLIGHTS {
        Err("Maximal "@ + text::decimal(MAX_TRACKED_FLIGHTS as nat) + " Flüge gleichzeitig FDM"@)
    } else if count_by(flights, user) >= MAX_FLIGHTS_PER_USER {
        Err("Du trackst schon "@ + text::decimal(MAX_FLIGHTS_PER_USER as nat) + " Flüge FDM"@)
    } else if already_tracked(flights, id) {
        Err(id.name() + " wird schon getrackt FDM"@)
    } else {
        Ok(
            match id {
                Identifier::Hex(h) => Query::ByHex(h),
                Identifier::Callsign(cs) => Query::ByCallsign(cs),
            },
        )
    }
}

impl TrackStart {
    pub open spec fn view(&self) -> Result<Query, Seq<char>> {
        match self {
            TrackStart::Reply(s) => Err(s@),
            TrackStart::LookUp(q) => Ok(q@),
        }
    }
}

/// What a lookup of an aircraft came back with.
#[derive(Debug, Clone)]
pub enum Lookup {
    Found(NearbyAircraft),
    NotFound,
    Failed,
    TimedOut,
}

/// A route: origin and destination as IATA codes, and where the destination is.
#[derive(Debug, Clone)]
pub struct FetchedRoute {
    pub origin: String,
    pub destination: String,
    pub dest_coords: Option<(i64, i64)>,
}

/// The contents of a `FetchedRoute`.
#[verifier::ext_equal]
pub ghost struct Route {
    pub origin: Seq<char>,
    pub destination: Seq<char>,
    pub dest_coords: Option<(i64, i64)>,
}

impl FetchedRoute {
    pub open spec fn view(&self) -> Route {
        Route {
            origin: self.origin@,
            destination: self.destination@,
            dest_coords: self.dest_coords,
        }
    }
}

pub open spec fn opt_route(r: Option<FetchedRoute>) -> Option<Route> {
    match r {
        Some(route) => Some(route@),
        None => None,
    }
}

/// A flight with a route. Where the destination is unknown, the coordinates stay.
pub open spec fn with_route(f: Flight, r: Route) -> Flight {
    Flight {
        route: Some((r.origin, r.destination)),
        dest_lat: match r.dest_coords {
            Some((lat, lon)) => Some(lat),
            None => f.dest_lat,
        },
        dest_lon: match r.dest_coords {
            Some((lat, lon)) => Some(lon),
            None => f.dest_lon,
        },
        ..f
    }
}

/// The callsign that an aircraft reports, where it is not blank.
pub open spec fn reported_callsign(ac: crate::aviation::Aircraft) -> Option<Seq<char>> {
    match ac.flight {
        Some(s) => if text::trim(s).len() > 0 {
            Some(text::trim(s))
        } else {
            None
        },
        None => None,
    }
}

pub fn callsign_of(ac: &NearbyAircraft) -> (r: Option<String>)
    ensures
        text::opt_view(r) == reported_callsign(ac@),
{
    match &ac.flight {
        Some(s) => {
            let t = text::trimmed(s.as_str());
            if text::char_count(t.as_str()) > 0 {
                Some(t)
            } else {
                None
            }
        },
        None => None,
    }
}

/// The state of a flight that tracking begins with.
pub open spec fn new_flight(
    id: Identifier,
    user: Seq<char>,
    ac: crate::aviation::Aircraft,
    route: Option<Route>,
    now: Timestamp,
) -> Flight {
    let base = Flight {
        identifier: id,
        callsign: reported_callsign(ac),
        hex: ac.hex,
        phase: next_phase(FlightPhase::Unknown, 0, ac),
        route: None,
        aircraft_type: ac.t,
        altitude_ft: altitude(ac),
        vertical_rate_fpm: climb_rate(ac),
        ground_speed_kts: ac.gs,
        lat: ac.lat,
        lon: ac.lon,
        squawk: ac.squawk,
        tracked_by: user,
        tracked_at: now,
        last_seen: Some(now),
        last_phase_change: None,
        polls_since_change: 0,
        divert_consecutive_polls: 0,
        dest_lat: None,
        dest_lon: None,
    };
    match route {
        Some(r) => if base.callsign is Some {
            with_route(base, r)
        } else {
            base
        },
        None => base,
    }
}

impl TrackedFlight {
    /// Sets the route. Where the destination is unknown, its coordinates stay.
    pub fn set_route(&mut self, r: &FetchedRoute)
        ensures
            final(self)@ == with_route(old(self)@, r@),
    {
        if let Some((lat, lon)) = r.dest_coords {
            self.dest_lat = Some(lat);
            self.dest_lon = Some(lon);
        }
        self.route = Some((r.origin.clone(), r.destination.clone()));
    }
}

/// A reply to a chat request, and whether the state is to be saved.
#[derive(Debug, Clone)]
pub struct Outcome {
    pub reply: String,
    pub save: bool,
}

/// The reply where a lookup did not find the aircraft.
pub open spec fn lookup_failure(id: Identifier, l: Lookup) -> Seq<char> {
    match l {
        Lookup::NotFound => id.name() + " nicht gefunden auf adsb.lol FDM"@,
        Lookup::Failed => "adsb.lol Anfrage fehlgeschlagen FDM"@,
        _ => "adsb.lol Anfrage Timeout FDM"@,
    }
}

proof fn lemma_push_count(flights: Seq<Flight>, f: Flight, user: Seq<char>)
    ensures
        count_by(flights.push(f), user) == count_by(flights, user) + if f.tracked_by == user {
            1nat
        } else {
            0nat
        },
{
    assert(flights.push(f).drop_last() =~= flights);
}

proof fn lemma_remove_count(flights: Seq<Flight>, i: int, user: Seq<char>)
    requires
        0 <= i < flights.len(),
    ensures
        count_by(flights.remove(i), user) <= count_by(flights, user),
    decreases flights.len(),
{
    if i == flights.len() - 1 {
        assert(flights.remove(i) =~= flights.drop_last());
    } else {
        lemma_remove_count(flights.drop_last(), i, user);
        assert(flights.remove(i).drop_last() =~= flights.drop_last().remove(i));
        assert(flights.remove(i).last() == flights.last());
    }
}

impl FlightTrackerState {
    pub fn new() -> (r: FlightTrackerState)
        ensures
            r@ == Seq::<Flight>::empty(),
            within_limits(r@),
    {
        let r = FlightTrackerState { flights: Vec::new() };
        assert(r@ =~= Seq::<Flight>::empty());
        r
    }

    /// Checks the limits and looks for the flight among those already tracked; gives the
    /// reply, or the aircraft to look up.
    pub fn start_track(&self, identifier: &FlightIdentifier, requested_by: &str) -> (r: TrackStart)
        ensures
            r@ == track_start(self@, identifier@, requested_by@),
    {
        if self.flights.len() >= MAX_TRACKED_FLIGHTS {
            return TrackStart::Reply(
                around(
                    "Maximal ",
                    text::from_usize(MAX_TRACKED_FLIGHTS).as_str(),
                    " Flüge gleichzeitig FDM",
                ),
            );
        }
        let user_count: usize = count_tracked_by(&self.flights, requested_by);
        if user_count >= MAX_FLIGHTS_PER_USER {
            return TrackStart::Reply(
                around(
                    "Du trackst schon ",
                    text::from_usize(MAX_FLIGHTS_PER_USER).as_str(),
                    " Flüge FDM",
                ),
            );
        }
        if some_tracked_as(&self.flights, identifier) {
            let mut s = identifier.to_text();
            s.push_str(" wird schon getrackt FDM");
            return TrackStart::Reply(s);
        }
        match identifier {
            FlightIdentifier::Hex(h) => TrackStart::LookUp(AircraftQuery::ByHex(h.clone())),
            FlightIdentifier::Callsign(cs) => TrackStart::LookUp(
                AircraftQuery::ByCallsign(cs.clone()),
            ),
        }
    }

    /// Finishes a request to track a flight with what the lookups came back with. The
    /// route counts only where the aircraft reports a callsign.
    pub fn finish_track(
        &mut self,
        identifier: FlightIdentifier,
        requested_by: &str,
        lookup: &Lookup,
        route: &Option<FetchedRoute>,
        now: &Timestamp,
    ) -> (r: Outcome)
        requires
            track_start(old(self)@, identifier@, requested_by@) is Ok,
        ensures
            match *lookup {
                Lookup::Found(ac) => {
                    let f = new_flight(identifier@, requested_by@, ac@, opt_route(*route), *now);
                    &&& final(self)@ == old(self)@.push(f)
                    &&& r.reply@ == track_started_text(f)
                    &&& r.save
                },
                _ => {
                    &&& final(self)@ == old(self)@
                    &&& r.reply@ == lookup_failure(identifier@, *lookup)
                    &&& !r.save
                },
            },
            (r.reply@, final(self)@) == tracking_begun(
                old(self)@,
                identifier@,
                requested_by@,
                *lookup,
                opt_route(*route),
                *now,
            ),
            within_limits(old(self)@) ==> within_limits(final(self)@),
    {
        let ac = match lookup {
            Lookup::Found(ac) => ac,
            Lookup::NotFound => {
                let mut s = identifier.to_text();
                s.push_str(" nicht gefunden auf adsb.lol FDM");
                return Outcome { reply: s, save: false };
            },
            Lookup::Failed => {
                return Outcome {
                    reply: "adsb.lol Anfrage fehlgeschlagen FDM".to_owned(),
                    save: false,
                };
            },
            Lookup::TimedOut => {
                return Outcome { reply: "adsb.lol Anfrage Timeout FDM".to_owned(), save: false };
            },
        };
        let callsign = callsign_of(ac);
        let has_callsign = callsign.is_some();
        let ghost id = identifier@;
        let mut flight = TrackedFlight {
            identifier,
            callsign,
            hex: text::clone_opt(&ac.hex),
            phase: FlightPhase::Unknown,
            route: None,
            aircraft_type: text::clone_opt(&ac.t),
            altitude_ft: altitude_ft(ac),
            vertical_rate_fpm: vertical_rate(ac),
            ground_speed_kts: ac.gs,
            lat: ac.lat,
            lon: ac.lon,
            squawk: text::clone_opt(&ac.squawk),
            tracked_by: requested_by.to_owned(),
            tracked_at: *now,
            last_seen: Some(*now),
            last_phase_change: None,
            polls_since_change: 0,
            divert_consecutive_polls: 0,
            dest_lat: None,
            dest_lon: None,
        };
        flight.phase = detect_phase(&flight, ac);
        if has_callsign {
            if let Some(r) = route {
                flight.set_route(r);
            }
        }
        let reply = msg_track_started(&flight);
        let ghost f = flight@;
        proof {
            assert(f =~= new_flight(id, requested_by@, ac@, opt_route(*route), *now));
        }
        self.flights.push(flight);
        proof {
            assert(self@ =~= old(self)@.push(f));
            if within_limits(old(self)@) {
                assert forall|user: Seq<char>| #[trigger]
                    count_by(self@, user) <= MAX_FLIGHTS_PER_USER by {
                    lemma_push_count(old(self)@, f, user);
                    assert(count_by(old(self)@, user) <= MAX_FLIGHTS_PER_USER);
                }
            }
        }
        Outcome { reply, save: true }
    }

    /// Removes a flight that a query names, if the asking user tracks it or is a
    /// moderator.
    pub fn untrack(&mut self, identifier: &str, requested_by: &str, is_mod: bool) -> (r: Outcome)
        ensures
            match find_flight(old(self)@, text::unicode_upper(identifier@)) {
                None => {
                    &&& final(self)@ == old(self)@
                    &&& r.reply@ == identifier@ + " nicht gefunden FDM"@
                    &&& !r.save
                },
                Some(i) => {
                    let f = old(self)@[i];
                    if f.tracked_by != requested_by@ && !is_mod {
                        &&& final(self)@ == old(self)@
                        &&& r.reply@
                            == "Nur der Tracker oder Mods können das untracking machen FDM"@
                        &&& !r.save
                    } else {
                        &&& final(self)@ == old(self)@.remove(i)
                        &&& r.reply@ == flight_name(f) + " wird nicht mehr getrackt Okayge"@
                        &&& r.save
                    }
                },
            },
            within_limits(old(self)@) ==> within_limits(final(self)@),
            text::upper_known(identifier@),
            untracked(
                old(self)@,
                text::unicode_upper(identifier@),
                requested_by@,
                is_mod,
                final(self)@,
                r.save,
            ),
    {
        let idx: usize = match find_flight_index(&self.flights, identifier) {
            Some(i) => i,
            None => {
                let mut s = identifier.to_owned();
                s.push_str(" nicht gefunden FDM");
                return Outcome { reply: s, save: false };
            },
        };
        let own = text::same(self.flights[idx].tracked_by.as_str(), requested_by);
        if !own && !is_mod {
            return Outcome {
                reply: "Nur der Tracker oder Mods können das untracking machen FDM".to_owned(),
                save: false,
            };
        }
        let mut name = self.flights[idx].name().to_owned();
        self.flights.remove(idx);
        name.push_str(" wird nicht mehr getrackt Okayge");
        proof {
            assert(self@ =~= old(self)@.remove(idx as int));
            if within_limits(old(self)@) {
                assert forall|user: Seq<char>| #[trigger]
                    count_by(self@, user) <= MAX_FLIGHTS_PER_USER by {
                    lemma_remove_count(old(self)@, idx as int, user);
                    assert(count_by(old(self)@, user) <= MAX_FLIGHTS_PER_USER);
                }
            }
        }
        Outcome { reply: name, save: true }
    }

    /// The reply to a status request: one flight, or the list of all.
    pub fn status(&self, identifier: Option<&str>, now: &Timestamp) -> (r: String)
        ensures
            r@ == match identifier {
                None => list_text(self@),
                Some(id) => match find_flight(self@, text::unicode_upper(id@)) {
                    Some(i) => status_text(self@[i], now@),
                    None => id@ + " nicht gefunden FDM"@,
                },
            },
            identifier matches Some(id) ==> text::upper_known(id@),
            r@ == status_reply(self@, text::opt_str_view(identifier), now@),
    {
        match identifier {
            None => msg_flights_list(&self.flights),
            Some(id) => match find_flight_index(&self.flights, id) {
                Some(idx) => msg_flight_status(&self.flights[idx], now),
                None => {
                    let mut s = id.to_owned();
                    s.push_str(" nicht gefunden FDM");
                    s
                },
            },
        }
    }
}

/// What a user is told, and the flights, once what they asked to track was looked up.
pub open spec fn tracking_begun(
    flights: Seq<Flight>,
    id: Identifier,
    user: Seq<char>,
    l: Lookup,
    route: Option<Route>,
    now: Timestamp,
) -> (Seq<char>, Seq<Flight>) {
    match l {
        Lookup::Found(ac) => {
            let f = new_flight(id, user, ac@, route, now);
            (track_started_text(f), flights.push(f))
        },
        _ => (lookup_failure(id, l), flights),
    }
}

/// The reply to a status request.
pub open spec fn status_reply(flights: Seq<Flight>, query: Option<Seq<char>>, now: int) -> Seq<char> {
    match query {
        None => list_text(flights),
        Some(id) => match find_flight(flights, text::unicode_upper(id)) {
            Some(i) => status_text(flights[i], now),
            None => id + " nicht gefunden FDM"@,
        },
    }
}

/// Whether flights are those left once a user asked for one not to be tracked any more,
/// and whether something changed.
pub open spec fn untracked(
    flights: Seq<Flight>,
    query: Seq<char>,
    user: Seq<char>,
    is_mod: bool,
    left: Seq<Flight>,
    changed: bool,
) -> bool {
    match find_flight(flights, query) {
        Some(i) if flights[i].tracked_by == user || is_mod => left == flights.remove(i) && changed,
        _ => left == flights && !changed,
    }
}

/// Whether a flight calls for frequent polls.
pub open spec fn needs_fast(f: Flight) -> bool {
    f.polls_since_change < 5 || f.phase == FlightPhase::Takeoff || f.phase == FlightPhase::Approach
        || f.phase == FlightPhase::Landing
}

pub open spec fn needs_normal(f: Flight) -> bool {
    f.phase == FlightPhase::Climb || f.phase == FlightPhase::Descent
}

/// The seconds until the next poll.
pub open spec fn poll_interval(flights: Seq<Flight>) -> int {
    if exists|i: int| 0 <= i < flights.len() && needs_fast(#[trigger] flights[i]) {
        POLL_FAST as int
    } else if exists|i: int| 0 <= i < flights.len() && needs_normal(#[trigger] flights[i]) {
        POLL_NORMAL as int
    } else {
        POLL_SLOW as int
    }
}

/// Determines the polling interval from all tracked flights.
pub fn compute_poll_interval(flights: &Vec<TrackedFlight>) -> (r: Duration)
    ensures
        r@ == poll_interval(flights_of(flights@)) * 1_000_000_000,
{
    let ghost all = flights_of(flights@);
    let mut normal = false;
    let mut i: usize = 0;
    while i < flights.len()
        invariant
            all == flights_of(flights@),
            i <= flights@.len(),
            forall|j: int| 0 <= j < i ==> !needs_fast(#[trigger] all[j]),
            normal == exists|j: int| 0 <= j < i && needs_normal(#[trigger] all[j]),
        decreases flights@.len() - i,
    {
        let phase = flights[i].phase;
        if flights[i].polls_since_change < 5 || phase == FlightPhase::Takeoff || phase
            == FlightPhase::Approach || phase == FlightPhase::Landing {
            assert(needs_fast(all[i as int]));
            return Duration::from_secs(POLL_FAST);
        }
        if phase == FlightPhase::Climb || phase == FlightPhase::Descent {
            assert(needs_normal(all[i as int]));
            normal = true;
        }
        i = i + 1;
    }
    if normal {
        Duration::from_secs(POLL_NORMAL)
    } else {
        Duration::from_secs(POLL_SLOW)
    }
}

// ---------------------------------------------------------------------------
// Polling
// ---------------------------------------------------------------------------

/// Which aircraft a poll asks for: by hex code wherever one is known.
pub open spec fn poll_query_of(f: Flight) -> Query {
    match f.identifier {
        Identifier::Hex(h) => Query::ByHex(h),
        Identifier::Callsign(cs) => match f.hex {
            Some(h) => Query::ByHex(h),
            None => Query::ByCallsign(cs),
        },
    }
}

pub fn poll_query(flight: &TrackedFlight) -> (r: AircraftQuery)
    ensures
        r@ == poll_query_of(flight@),
{
    match &flight.identifier {
        FlightIdentifier::Hex(h) => AircraftQuery::ByHex(h.clone()),
        FlightIdentifier::Callsign(cs) => match &flight.hex {
            Some(h) => AircraftQuery::ByHex(h.clone()),
            None => AircraftQuery::ByCallsign(cs.clone()),
        },
    }
}

/// The callsign for which a poll fetches a route: one that the aircraft reports for the
/// first time, while no route is known.
pub open spec fn route_wanted(f: Flight, ac: crate::aviation::Aircraft) -> Option<Seq<char>> {
    if f.callsign is None && f.route is None {
        reported_callsign(ac)
    } else {
        None
    }
}

pub fn wanted_route(flight: &TrackedFlight, ac: &NearbyAircraft) -> (r: Option<String>)
    ensures
        text::opt_view(r) == route_wanted(flight@, ac@),
{
    if flight.callsign.is_none() && flight.route.is_none() {
        callsign_of(ac)
    } else {
        None
    }
}

/// A flight after its callsign, hex code, type and route were filled in from a poll,
/// where they were unknown.
pub open spec fn resolved(f: Flight, ac: crate::aviation::Aircraft, route: Option<Route>) -> Flight {
    let named = if f.callsign is None {
        Flight { callsign: reported_callsign(ac), ..f }
    } else {
        f
    };
    let routed = if route_wanted(f, ac) is Some && route is Some {
        with_route(named, route->0)
    } else {
        named
    };
    Flight {
        hex: if f.hex is None {
            ac.hex
        } else {
            f.hex
        },
        aircraft_type: if f.aircraft_type is None {
            ac.t
        } else {
            f.aircraft_type
        },
        ..routed
    }
}

/// The warning about an emergency squawk that the flight did not send before.
pub open spec fn squawk_warning(f: Flight, ac: crate::aviation::Aircraft) -> Seq<Seq<char>> {
    match ac.squawk {
        Some(code) => if f.squawk != ac.squawk && squawk_meaning(code) is Some {
            seq![squawk_text(f, code, squawk_meaning(code)->0)]
        } else {
            Seq::empty()
        },
        None => Seq::empty(),
    }
}

/// A flight with the data of a poll.
pub open spec fn with_data(f: Flight, ac: crate::aviation::Aircraft) -> Flight {
    Flight {
        altitude_ft: altitude(ac),
        vertical_rate_fpm: climb_rate(ac),
        ground_speed_kts: ac.gs,
        lat: ac.lat,
        lon: ac.lon,
        squawk: ac.squawk,
        ..f
    }
}

/// The message about a new phase.
pub open spec fn phase_message(f: Flight, now: int) -> Seq<Seq<char>> {
    match f.phase {
        FlightPhase::Takeoff => seq![takeoff_text(f)],
        FlightPhase::Cruise => seq![cruise_text(f)],
        FlightPhase::Descent => seq![descent_text(f)],
        FlightPhase::Approach => seq![approach_text(f)],
        FlightPhase::Landing => seq![landing_text(f, now)],
        _ => Seq::empty(),
    }
}

/// A flight in a new phase, as the message about it sees it.
pub open spec fn in_phase(f: Flight, phase: FlightPhase, now: Timestamp) -> Flight {
    Flight { phase, last_phase_change: Some(now), polls_since_change: 0, ..f }
}

/// A flight after a landing was reported: it is on the ground.
pub open spec fn settled(f: Flight) -> Flight {
    if f.phase == FlightPhase::Landing {
        Flight { phase: FlightPhase::Ground, ..f }
    } else {
        f
    }
}

/// The next value of a counter, which stays at its maximum.
pub open spec fn counted(n: u32) -> u32 {
    if n == u32::MAX {
        n
    } else {
        (n + 1) as u32
    }
}

/// The course over ground and the course to the destination, in thousandths of a degree
/// from 0 to 360 degrees.
#[derive(Debug, Clone, Copy, PartialEq, Eq, Structural)]
pub struct Bearings {
    pub ground_track: u32,
    pub to_destination: u32,
}

/// The angle between two courses, at most half a turn.
pub open spec fn angle_between(a: int, b: int) -> int {
    let diff = if a >= b {
        a - b
    } else {
        b - a
    };
    if diff > 180_000 {
        360_000 - diff
    } else {
        diff
    }
}

pub open spec fn off_course(b: Bearings) -> bool {
    angle_between(b.ground_track as int, b.to_destination as int) > DIVERT_BEARING_THRESHOLD
}

fn is_off_course(b: &Bearings) -> (r: bool)
    ensures
        r == off_course(*b),
{
    let a: i64 = b.ground_track as i64;
    let c: i64 = b.to_destination as i64;
    let mut diff: i64 = if a >= c {
        a - c
    } else {
        c - a
    };
    if diff > 180_000 {
        diff = 360_000 - diff;
    }
    diff > DIVERT_BEARING_THRESHOLD
}

/// Whether the positions that courses are measured between are all known: the previous
/// one, the current one and the destination.
pub open spec fn course_known(before: Flight, f: Flight) -> bool {
    &&& before.lat is Some && before.lon is Some
    &&& f.lat is Some && f.lon is Some
    &&& f.dest_lat is Some && f.dest_lon is Some
}

/// The divert counter after a poll.
pub open spec fn divert_count(before: Flight, f: Flight, b: Option<Bearings>) -> u32 {
    if f.phase == FlightPhase::Descent || f.phase == FlightPhase::Approach {
        if course_known(before, f) && b is Some {
            if off_course(b->0) {
                counted(f.divert_consecutive_polls)
            } else {
                0
            }
        } else {
            f.divert_consecutive_polls
        }
    } else {
        0
    }
}

/// The message about a divert: once, when enough polls in a row were off course.
pub open spec fn divert_message(before: Flight, f: Flight, b: Option<Bearings>) -> Seq<Seq<char>> {
    if (f.phase == FlightPhase::Descent || f.phase == FlightPhase::Approach) && course_known(
        before,
        f,
    ) && b is Some && off_course(b->0) && f.divert_consecutive_polls < u32::MAX
        && f.divert_consecutive_polls + 1 == DIVERT_CONSECUTIVE_POLLS {
        seq![divert_text(f)]
    } else {
        Seq::empty()
    }
}

/// What a poll makes of a flight: its new state (`None` where it is removed), the
/// messages for the chat, and whether the state is to be saved.
#[verifier::ext_equal]
pub ghost struct Step {
    pub flight: Option<Flight>,
    pub messages: Seq<Seq<char>>,
    pub changed: bool,
}

/// A flight after its phase was determined.
pub open spec fn advanced(f: Flight, ac: crate::aviation::Aircraft, now: Timestamp) -> Flight {
    let phase = next_phase(f.phase, f.polls_since_change, ac);
    if phase != f.phase {
        settled(in_phase(f, phase, now))
    } else {
        Flight { polls_since_change: counted(f.polls_since_change), ..f }
    }
}

/// The message about the phase that a flight turns to.
pub open spec fn turn_message(f: Flight, ac: crate::aviation::Aircraft, now: Timestamp) -> Seq<
    Seq<char>,
> {
    let phase = next_phase(f.phase, f.polls_since_change, ac);
    if phase != f.phase {
        phase_message(in_phase(f, phase, now), now@)
    } else {
        Seq::empty()
    }
}

/// A flight for which the poll found the aircraft.
pub open spec fn seen(
    f: Flight,
    ac: crate::aviation::Aircraft,
    route: Option<Route>,
    b: Option<Bearings>,
    now: Timestamp,
) -> Step {
    let known = Flight { last_seen: Some(now), ..resolved(f, ac, route) };
    let data = with_data(known, ac);
    let next = advanced(data, ac, now);
    Step {
        flight: Some(Flight { divert_consecutive_polls: divert_count(f, next, b), ..next }),
        messages: squawk_warning(known, ac) + turn_message(data, ac, now) + divert_message(
            f,
            next,
            b,
        ),
        changed: (f.callsign is None && reported_callsign(ac) is Some) || next_phase(
            data.phase,
            data.polls_since_change,
            ac,
        ) != data.phase,
    }
}

/// A flight that was not found. It is removed, with a message, once it was last seen
/// long enough ago.
pub open spec fn unseen(f: Flight, now: Timestamp) -> Step {
    if f.last_seen is Some && now@ - f.last_seen->0@ >= TRACKING_LOST_REMOVAL * 1_000_000_000 {
        Step { flight: None, messages: seq![lost_text(f)], changed: true }
    } else {
        Step { flight: Some(f), messages: Seq::empty(), changed: false }
    }
}

/// What a poll of one flight came back with.
#[derive(Debug, Clone)]
pub enum PollResult {
    /// The aircraft, the route where one was fetched, and the courses where the positions
    /// are known.
    Found { ac: NearbyAircraft, route: Option<FetchedRoute>, bearings: Option<Bearings> },
    NotFound,
    /// The request failed or timed out.
    Unavailable,
}

pub open spec fn step(f: Flight, r: PollResult, now: Timestamp) -> Step {
    match r {
        PollResult::Found { ac, route, bearings } => seen(f, ac@, opt_route(route), bearings, now),
        PollResult::NotFound => unseen(f, now),
        PollResult::Unavailable => Step {
            flight: Some(f),
            messages: Seq::empty(),
            changed: false,
        },
    }
}

/// The positions between which the courses of a poll are measured, each as latitude and
/// longitude in millionths of a degree.
#[derive(Debug, Clone, Copy, PartialEq, Eq)]
pub struct CourseQuery {
    pub previous: (i64, i64),
    pub current: (i64, i64),
    pub destination: (i64, i64),
}

pub open spec fn course_query_of(
    f: Flight,
    ac: crate::aviation::Aircraft,
    route: Option<Route>,
) -> Option<CourseQuery> {
    let next = with_data(resolved(f, ac, route), ac);
    if course_known(f, next) {
        Some(
            CourseQuery {
                previous: (f.lat->0, f.lon->0),
                current: (ac.lat->0, ac.lon->0),
                destination: (next.dest_lat->0, next.dest_lon->0),
            },
        )
    } else {
        None
    }
}

/// The positions between which the courses of a poll are measured, where all are known.
pub fn course_query(
    flight: &TrackedFlight,
    ac: &NearbyAircraft,
    route: &Option<FetchedRoute>,
) -> (r: Option<CourseQuery>)
    ensures
        r == course_query_of(flight@, ac@, opt_route(*route)),
{
    let mut dest_lat = flight.dest_lat;
    let mut dest_lon = flight.dest_lon;
    let wanted = wanted_route(flight, ac).is_some();
    if wanted {
        if let Some(r) = route {
            if let Some((lat, lon)) = r.dest_coords {
                dest_lat = Some(lat);
                dest_lon = Some(lon);
            }
        }
    }
    match (flight.lat, flight.lon, ac.lat, ac.lon, dest_lat, dest_lon) {
        (Some(a), Some(b), Some(c), Some(d), Some(e), Some(f)) => Some(
            CourseQuery { previous: (a, b), current: (c, d), destination: (e, f) },
        ),
        _ => None,
    }
}

fn count_up(n: u32) -> (r: u32)
    ensures
        r == counted(n),
{
    if n == u32::MAX {
        n
    } else {
        n + 1
    }
}

fn same_opt(a: &Option<String>, b: &Option<String>) -> (r: bool)
    ensures
        r == (text::opt_view(*a) == text::opt_view(*b)),
{
    match (a, b) {
        (Some(x), Some(y)) => text::same(x.as_str(), y.as_str()),
        (None, None) => true,
        _ => false,
    }
}

/// Fills in callsign, route, hex code and type where they were unknown; says whether the
/// callsign was.
fn fill_unknown(
    flight: &mut TrackedFlight,
    ac: &NearbyAircraft,
    route: &Option<FetchedRoute>,
) -> (named: bool)
    ensures
        final(flight)@ == resolved(old(flight)@, ac@, opt_route(*route)),
        named == (old(flight)@.callsign is None && reported_callsign(ac@) is Some),
{
    let mut named = false;
    if flight.callsign.is_none() {
        if let Some(cs) = callsign_of(ac) {
            flight.callsign = Some(cs);
            named = true;
            if flight.route.is_none() {
                if let Some(r) = route {
                    flight.set_route(r);
                }
            }
        }
    }
    if flight.hex.is_none() {
        flight.hex = text::clone_opt(&ac.hex);
    }
    if flight.aircraft_type.is_none() {
        flight.aircraft_type = text::clone_opt(&ac.t);
    }
    assert(flight@ =~= resolved(old(flight)@, ac@, opt_route(*route)));
    named
}

/// Appends the warning about a new emergency squawk.
fn warn_squawk(flight: &TrackedFlight, ac: &NearbyAircraft, messages: &mut Vec<String>)
    ensures
        text::views(final(messages)@) == text::views(old(messages)@) + squawk_warning(
            flight@,
            ac@,
        ),
{
    let ghost m0 = text::views(messages@);
    if let Some(code) = &ac.squawk {
        if !same_opt(&flight.squawk, &ac.squawk) {
            if let Some(meaning) = emergency_squawk_meaning(code.as_str()) {
                messages.push(msg_squawk_emergency(flight, code.as_str(), meaning));
            }
        }
    }
    assert(text::views(messages@) =~= m0 + squawk_warning(flight@, ac@));
}

/// Copies the data of a poll into a flight.
fn take_data(flight: &mut TrackedFlight, ac: &NearbyAircraft)
    ensures
        final(flight)@ == with_data(old(flight)@, ac@),
{
    flight.altitude_ft = altitude_ft(ac);
    flight.vertical_rate_fpm = vertical_rate(ac);
    flight.ground_speed_kts = ac.gs;
    flight.lat = ac.lat;
    flight.lon = ac.lon;
    flight.squawk = text::clone_opt(&ac.squawk);
}

/// Determines the phase; appends the message about a new one, and says whether it is new.
fn advance(
    flight: &mut TrackedFlight,
    ac: &NearbyAircraft,
    now: &Timestamp,
    messages: &mut Vec<String>,
) -> (turned: bool)
    ensures
        final(flight)@ == advanced(old(flight)@, ac@, *now),
        text::views(final(messages)@) == text::views(old(messages)@) + turn_message(
            old(flight)@,
            ac@,
            *now,
        ),
        turned == (next_phase(old(flight)@.phase, old(flight)@.polls_since_change, ac@) != old(
            flight,
        )@.phase),
{
    let ghost m0 = text::views(messages@);
    let ghost f0 = flight@;
    let new_phase = detect_phase(flight, ac);
    if new_phase == flight.phase {
        flight.polls_since_change = count_up(flight.polls_since_change);
        assert(text::views(messages@) =~= m0 + turn_message(f0, ac@, *now));
        return false;
    }
    flight.phase = new_phase;
    flight.last_phase_change = Some(*now);
    flight.polls_since_change = 0;
    assert(flight@ =~= in_phase(f0, new_phase, *now));
    match new_phase {
        FlightPhase::Takeoff => messages.push(msg_takeoff(flight)),
        FlightPhase::Cruise => messages.push(msg_cruise(flight)),
        FlightPhase::Descent => messages.push(msg_descent(flight)),
        FlightPhase::Approach => messages.push(msg_approach(flight)),
        FlightPhase::Landing => messages.push(msg_landing(flight, now)),
        _ => {},
    }
    if new_phase == FlightPhase::Landing {
        flight.phase = FlightPhase::Ground;
    }
    assert(text::views(messages@) =~= m0 + turn_message(f0, ac@, *now));
    true
}

/// Counts polls off course; appends the message when there were enough in a row.
fn watch_course(
    flight: &mut TrackedFlight,
    prev_known: bool,
    bearings: &Option<Bearings>,
    Ghost(before): Ghost<Flight>,
    messages: &mut Vec<String>,
)
    requires
        prev_known == (before.lat is Some && before.lon is Some),
    ensures
        final(flight)@ == (Flight {
            divert_consecutive_polls: divert_count(before, old(flight)@, *bearings),
            ..old(flight)@
        }),
        text::views(final(messages)@) == text::views(old(messages)@) + divert_message(
            before,
            old(flight)@,
            *bearings,
        ),
{
    let ghost m0 = text::views(messages@);
    let ghost f0 = flight@;
    if flight.phase == FlightPhase::Descent || flight.phase == FlightPhase::Approach {
        let known_now = flight.lat.is_some() && flight.lon.is_some() && flight.dest_lat.is_some()
            && flight.dest_lon.is_some();
        if prev_known && known_now {
            if let Some(b) = bearings {
                if is_off_course(b) {
                    let n: u32 = flight.divert_consecutive_polls;
                    if n < u32::MAX && n + 1 == DIVERT_CONSECUTIVE_POLLS {
                        messages.push(msg_possible_divert(flight));
                    }
                    flight.divert_consecutive_polls = count_up(n);
                } else {
                    flight.divert_consecutive_polls = 0;
                }
            }
        }
    } else {
        flight.divert_consecutive_polls = 0;
    }
    assert(text::views(messages@) =~= m0 + divert_message(before, f0, *bearings));
}

/// Applies a poll that found the aircraft; appends the messages for the chat, and says
/// whether the state is to be saved.
fn apply_found(
    flight: &mut TrackedFlight,
    ac: &NearbyAircraft,
    route: &Option<FetchedRoute>,
    bearings: &Option<Bearings>,
    now: &Timestamp,
    messages: &mut Vec<String>,
) -> (changed: bool)
    ensures
        ({
            let s = seen(old(flight)@, ac@, opt_route(*route), *bearings, *now);
            &&& s.flight == Some(final(flight)@)
            &&& text::views(final(messages)@) == text::views(old(messages)@) + s.messages
            &&& changed == s.changed
        }),
{
    let ghost f0 = flight@;
    let ghost m0 = text::views(messages@);
    let prev_known = flight.lat.is_some() && flight.lon.is_some();
    let named = fill_unknown(flight, ac, route);
    flight.last_seen = Some(*now);
    let ghost known = flight@;
    warn_squawk(flight, ac, messages);
    take_data(flight, ac);
    let ghost data = flight@;
    let turned = advance(flight, ac, now, messages);
    let ghost next = flight@;
    watch_course(flight, prev_known, bearings, Ghost(f0), messages);
    proof {
        let m1 = squawk_warning(known, ac@);
        let m2 = turn_message(data, ac@, *now);
        let m3 = divert_message(f0, next, *bearings);
        assert(m0 + m1 + m2 + m3 =~= m0 + (m1 + m2 + m3));
    }
    named || turned
}

/// The flights that remain after the first polls, in order.
pub open spec fn kept(steps: Seq<Step>) -> Seq<Flight>
    decreases steps.len(),
{
    if steps.len() == 0 {
        Seq::empty()
    } else {
        match steps.last().flight {
            Some(f) => kept(steps.drop_last()).push(f),
            None => kept(steps.drop_last()),
        }
    }
}

/// The messages of the polls, in order.
pub open spec fn all_messages(steps: Seq<Step>) -> Seq<Seq<char>>
    decreases steps.len(),
{
    if steps.len() == 0 {
        Seq::empty()
    } else {
        all_messages(steps.drop_last()) + steps.last().messages
    }
}

/// Each flight with what its poll makes of it.
pub open spec fn steps_of(flights: Seq<Flight>, results: Seq<PollResult>, now: Timestamp) -> Seq<
    Step,
> {
    Seq::new(flights.len(), |i: int| step(flights[i], results[i], now))
}

/// Every flight that a poll keeps is tracked by the user who tracked it before, since the
/// same time and under the same identifier.
pub proof fn law_poll_keeps_owner(f: Flight, r: PollResult, now: Timestamp)
    ensures
        step(f, r, now).flight is Some ==> {
            &&& step(f, r, now).flight->0.tracked_by == f.tracked_by
            &&& step(f, r, now).flight->0.tracked_at == f.tracked_at
            &&& step(f, r, now).flight->0.identifier == f.identifier
        },
{
}

proof fn lemma_kept_within(flights: Seq<Flight>, results: Seq<PollResult>, now: Timestamp, n: int)
    requires
        0 <= n <= flights.len(),
    ensures
        kept(steps_of(flights, results, now).take(n)).len() <= n,
        forall|user: Seq<char>|
            #![trigger count_by(kept(steps_of(flights, results, now).take(n)), user)]
            count_by(kept(steps_of(flights, results, now).take(n)), user) <= count_by(
                flights.take(n),
                user,
            ),
    decreases n,
{
    let steps = steps_of(flights, results, now);
    if n > 0 {
        lemma_kept_within(flights, results, now, n - 1);
        assert(steps.take(n).drop_last() =~= steps.take(n - 1));
        assert(flights.take(n).drop_last() =~= flights.take(n - 1));
        let before = kept(steps.take(n - 1));
        law_poll_keeps_owner(flights[n - 1], results[n - 1], now);
        assert forall|user: Seq<char>| #[trigger]
            count_by(kept(steps.take(n)), user) <= count_by(flights.take(n), user) by {
            assert(count_by(before, user) <= count_by(flights.take(n - 1), user));
            match steps[n - 1].flight {
                Some(f) => {
                    lemma_push_count(before, f, user);
                },
                None => {},
            }
        }
    }
}

/// What a round of polls came to.
#[derive(Debug, Clone)]
pub struct PollOutcome {
    pub messages: Vec<String>,
    pub changed: bool,
}

impl FlightTrackerState {
    /// Applies the results of a round of polls, one for each flight: updates the flights,
    /// removes those that are lost, and gathers the messages for the chat.
    pub fn apply_polls(&mut self, results: &Vec<PollResult>, now: &Timestamp) -> (r: PollOutcome)
        requires
            results@.len() == old(self)@.len(),
        ensures
            ({
                let steps = steps_of(old(self)@, results@, *now);
                &&& final(self)@ == kept(steps)
                &&& text::views(r.messages@) == all_messages(steps)
                &&& r.changed == exists|i: int| 0 <= i < steps.len() && (#[trigger] steps[i]).changed
            }),
            within_limits(old(self)@) ==> within_limits(final(self)@),
    {
        let ghost all = self@;
        let ghost steps = steps_of(all, results@, *now);
        let mut messages: Vec<String> = Vec::new();
        let mut changed = false;
        let mut at: usize = 0;
        let mut j: usize = 0;
        proof {
            assert(text::views(messages@) =~= Seq::<Seq<char>>::empty());
            assert(steps.take(0) =~= Seq::<Step>::empty());
            assert(kept(steps.take(0)) + all.skip(0) =~= all);
        }
        while j < results.len()
            invariant
                results@.len() == all.len(),
                steps == steps_of(all, results@, *now),
                at <= j <= results@.len(),
                at == kept(steps.take(j as int)).len(),
                self@ == kept(steps.take(j as int)) + all.skip(j as int),
                text::views(messages@) == all_messages(steps.take(j as int)),
                changed == exists|i: int| 0 <= i < j && (#[trigger] steps[i]).changed,
            decreases results@.len() - j,
        {
            let ghost done = kept(steps.take(j as int));
            let ghost rest = all.skip(j as int);
            let ghost m0 = text::views(messages@);
            proof {
                assert(steps.take(j + 1).drop_last() =~= steps.take(j as int));
                assert(steps.take(j + 1).last() == steps[j as int]);
                assert(rest.len() > 0 && rest[0] == all[j as int]);
                assert(self@.len() == self.flights@.len());
                assert(self@[at as int] == all[j as int]);
                assert(all.skip(j + 1) =~= rest.drop_first());
            }
            let ghost before = self@;
            match &results[j] {
                PollResult::Found { ac, route, bearings } => {
                    let turned = apply_found(
                        &mut self.flights[at],
                        ac,
                        route,
                        bearings,
                        now,
                        &mut messages,
                    );
                    if turned {
                        changed = true;
                    }
                    proof {
                        let f = steps[j as int].flight->0;
                        assert(self@ =~= before.update(at as int, f));
                        assert(self@ =~= done.push(f) + all.skip(j + 1));
                    }
                    at = at + 1;
                },
                PollResult::NotFound => {
                    let mut lost = false;
                    if let Some(last_seen) = self.flights[at].last_seen {
                        let gone = now.since(&last_seen);
                        if gone.nanos >= TRACKING_LOST_REMOVAL as i128 * 1_000_000_000 {
                            lost = true;
                        }
                    }
                    if lost {
                        messages.push(msg_tracking_lost(&self.flights[at]));
                        self.flights.remove(at);
                        changed = true;
                        proof {
                            assert(self@ =~= before.remove(at as int));
                            assert(self@ =~= done + all.skip(j + 1));
                            assert(text::views(messages@) =~= m0.push(lost_text(all[j as int])));
                            assert(m0 + seq![lost_text(all[j as int])] =~= m0.push(
                                lost_text(all[j as int]),
                            ));
                        }
                    } else {
                        proof {
                            assert(self@ =~= done.push(all[j as int]) + all.skip(j + 1));
                            assert(m0 + Seq::<Seq<char>>::empty() =~= m0);
                        }
                        at = at + 1;
                    }
                },
                PollResult::Unavailable => {
                    proof {
                        assert(self@ =~= done.push(all[j as int]) + all.skip(j + 1));
                        assert(m0 + Seq::<Seq<char>>::empty() =~= m0);
                    }
                    at = at + 1;
                },
            }
            j = j + 1;
        }
        proof {
            assert(steps.take(j as int) =~= steps);
            assert(kept(steps) + all.skip(j as int) =~= kept(steps));
            if within_limits(all) {
                lemma_kept_within(all, results@, *now, all.len() as int);
                assert(all.take(all.len() as int) =~= all);
                assert forall|user: Seq<char>| #[trigger]
                    count_by(self@, user) <= MAX_FLIGHTS_PER_USER by {
                    assert(count_by(all, user) <= MAX_FLIGHTS_PER_USER);
                }
            }
        }
        PollOutcome { messages, changed }
    }
}

/// A flight that was tracked is found by its name, whatever the case, and no user can
/// track it a second time.
pub proof fn law_tracked_is_found(
    flights: Seq<Flight>,
    id: Identifier,
    user: Seq<char>,
    ac: crate::aviation::Aircraft,
    route: Option<Route>,
    now: Timestamp,
    query: Seq<char>,
    other: Seq<char>,
)
    requires
        text::same_ignore_case(id.name(), query),
    ensures
        ({
            let after = flights.push(new_flight(id, user, ac, route, now));
            &&& find_flight(after, query) is Some
            &&& track_start(after, id, other) is Err
        }),
{
    let f = new_flight(id, user, ac, route, now);
    let after = flights.push(f);
    let last = flights.len() as int;
    assert(after[last] == f);
    assert(answers_to(after[last], query));
    lemma_find_flight(after, query);
    assert(is_tracked_as(after[last], id));
}

/// A landing is reported once: no flight is left in the landing phase, neither when
/// tracking begins nor after a poll, and a flight on the ground that stays there gives no
/// message about its phase.
pub proof fn law_landing_settles(
    f: Flight,
    r: PollResult,
    id: Identifier,
    user: Seq<char>,
    ac: crate::aviation::Aircraft,
    route: Option<Route>,
    now: Timestamp,
)
    ensures
        new_flight(id, user, ac, route, now).phase != FlightPhase::Landing,
        f.phase != FlightPhase::Landing && step(f, r, now).flight is Some ==> step(
            f,
            r,
            now,
        ).flight->0.phase != FlightPhase::Landing,
        f.phase == FlightPhase::Ground && on_ground(ac) ==> turn_message(f, ac, now).len() == 0,
{
}

/// A flight after a poll, as the check for a divert sees it.
pub open spec fn polled(
    f: Flight,
    ac: crate::aviation::Aircraft,
    route: Option<Route>,
    now: Timestamp,
) -> Flight {
    advanced(with_data(Flight { last_seen: Some(now), ..resolved(f, ac, route) }, ac), ac, now)
}

/// A divert is reported once: after a poll that gave the message about it, the next poll
/// that finds the aircraft does not give it again.
pub proof fn law_divert_is_reported_once(
    f: Flight,
    ac: crate::aviation::Aircraft,
    route: Option<Route>,
    b: Option<Bearings>,
    now: Timestamp,
    next_ac: crate::aviation::Aircraft,
    next_route: Option<Route>,
    next_b: Option<Bearings>,
    next_now: Timestamp,
)
    requires
        divert_message(f, polled(f, ac, route, now), b).len() > 0,
    ensures
        ({
            let after = seen(f, ac, route, b, now).flight->0;
            divert_message(after, polled(after, next_ac, next_route, next_now), next_b).len() == 0
        }),
{
}

/// A poll that could not be made, and one that does not find a flight seen shortly
/// before, leave the flight as it is and say nothing.
pub proof fn law_short_silence_is_harmless(f: Flight, now: Timestamp)
    requires
        f.last_seen is Some ==> now@ - f.last_seen->0@ < TRACKING_LOST_REMOVAL * 1_000_000_000,
    ensures
        step(f, PollResult::NotFound, now) == step(f, PollResult::Unavailable, now),
        step(f, PollResult::NotFound, now).flight == Some(f),
        step(f, PollResult::NotFound, now).messages.len() == 0,
{
}

/// One more flight never makes the polls less frequent.
pub proof fn law_more_flights_poll_no_slower(flights: Seq<Flight>, f: Flight)
    ensures
        poll_interval(flights.push(f)) <= poll_interval(flights),
        POLL_FAST <= poll_interval(flights) <= POLL_SLOW,
{
    let after = flights.push(f);
    if exists|i: int| 0 <= i < flights.len() && needs_fast(#[trigger] flights[i]) {
        let i = choose|i: int| 0 <= i < flights.len() && needs_fast(#[trigger] flights[i]);
        assert(after[i] == flights[i]);
    } else if exists|i: int| 0 <= i < flights.len() && needs_normal(#[trigger] flights[i]) {
        let i = choose|i: int| 0 <= i < flights.len() && needs_normal(#[trigger] flights[i]);
        assert(after[i] == flights[i]);
    }
}

// ---------------------------------------------------------------------------
// What phases mean
// ---------------------------------------------------------------------------

/// Whether an aircraft is reported in the air: not as on the ground, and not both below
/// 200 feet and slower than 30 knots.
pub open spec fn in_the_air(ac: crate::aviation::Aircraft) -> bool {
    match ac.alt_baro {
        Some(AltBaro::Ground) => false,
        Some(AltBaro::Feet(ft)) => ft >= 200 || (ac.gs is Some && ac.gs->0 >= 30_000),
        None => true,
    }
}

/// The vertical rate that an aircraft reports: the barometric one, else the geometric one.
pub open spec fn reported_rate(ac: crate::aviation::Aircraft) -> Option<i64> {
    if ac.baro_rate is Some {
        ac.baro_rate
    } else {
        ac.geom_rate
    }
}

/// An aircraft in the air that sinks by more than 500 feet a minute descends or
/// approaches, whatever it did before. It descends from 10000 feet up, unless it approached
/// before or says that it approaches; it approaches below.
pub proof fn law_sinking_is_noticed(
    phase: FlightPhase,
    polls: u32,
    ac: crate::aviation::Aircraft,
)
    requires
        in_the_air(ac),
        reported_rate(ac) is Some,
        reported_rate(ac)->0 < -500,
    ensures
        ({
            let next = next_phase(phase, polls, ac);
            let says_approach = ac.nav_modes is Some && ac.nav_modes->0.contains("approach"@);
            &&& next == FlightPhase::Descent || next == FlightPhase::Approach
            &&& ac.alt_baro is None ==> next == FlightPhase::Descent
            &&& ac.alt_baro matches Some(AltBaro::Feet(ft)) ==> (next == FlightPhase::Descent
                <==> ft >= 10_000 && !says_approach && phase != FlightPhase::Approach)
        }),
{
}

/// An aircraft on the ground has landed, unless it was not known to have left it.
pub proof fn law_ground_is_noticed(
    phase: FlightPhase,
    polls: u32,
    ac: crate::aviation::Aircraft,
)
    requires
        !in_the_air(ac),
    ensures
        phase == FlightPhase::Ground || phase == FlightPhase::Unknown ==> next_phase(
            phase,
            polls,
            ac,
        ) == FlightPhase::Ground,
        phase != FlightPhase::Ground && phase != FlightPhase::Unknown ==> next_phase(
            phase,
            polls,
            ac,
        ) == FlightPhase::Landing,
{
}

/// A flight takes off where it was on the ground or unknown, is in the air, flies faster
/// than 60 knots and rises; and only there.
pub proof fn law_takeoff_is_noticed(
    phase: FlightPhase,
    polls: u32,
    ac: crate::aviation::Aircraft,
)
    requires
        phase != FlightPhase::Takeoff,
    ensures
        next_phase(phase, polls, ac) == FlightPhase::Takeoff <==> {
            &&& phase == FlightPhase::Ground || phase == FlightPhase::Unknown
            &&& in_the_air(ac)
            &&& ac.gs is Some && ac.gs->0 > 60_000
            &&& reported_rate(ac) is Some && reported_rate(ac)->0 > 0
        },
{
}

/// A flight begins to cruise above 10000 feet, with less than 300 feet a minute up or down,
/// two polls after its last change, unless it just takes off or says that it approaches
/// while it sinks; and only there.
pub proof fn law_cruise_is_noticed(
    phase: FlightPhase,
    polls: u32,
    ac: crate::aviation::Aircraft,
)
    requires
        phase != FlightPhase::Cruise,
    ensures
        next_phase(phase, polls, ac) == FlightPhase::Cruise <==> {
            let says_approach = ac.nav_modes is Some && ac.nav_modes->0.contains("approach"@);
            let fast = ac.gs is Some && ac.gs->0 > 60_000;
            &&& ac.alt_baro matches Some(AltBaro::Feet(ft)) && ft > 10_000
            &&& reported_rate(ac) is Some
            &&& -300 < reported_rate(ac)->0 < 300
            &&& polls >= 2
            &&& !((phase == FlightPhase::Ground || phase == FlightPhase::Unknown) && fast
                && reported_rate(ac)->0 > 0)
            &&& !(says_approach && reported_rate(ac)->0 < 0)
        },
{
}

/// A flight climbs where it rises by more than 500 feet a minute in the air and does not
/// just take off; and it begins to climb only there.
pub proof fn law_climb_is_noticed(phase: FlightPhase, polls: u32, ac: crate::aviation::Aircraft)
    ensures
        ({
            let fast = ac.gs is Some && ac.gs->0 > 60_000;
            let leaves = (phase == FlightPhase::Ground || phase == FlightPhase::Unknown) && fast;
            let rises = in_the_air(ac) && reported_rate(ac) is Some && reported_rate(ac)->0 > 500
                && !leaves;
            &&& rises ==> next_phase(phase, polls, ac) == FlightPhase::Climb
            &&& phase != FlightPhase::Climb && next_phase(phase, polls, ac) == FlightPhase::Climb
                ==> rises
        }),
{
}

/// A flight that sinks and says that it approaches does so, also where it sinks slowly.
pub proof fn law_approach_is_noticed(
    phase: FlightPhase,
    polls: u32,
    ac: crate::aviation::Aircraft,
)
    requires
        in_the_air(ac),
        ac.nav_modes is Some,
        ac.nav_modes->0.contains("approach"@),
        ac.alt_baro is Some,
        reported_rate(ac) is Some,
        reported_rate(ac)->0 < 0,
    ensures
        next_phase(phase, polls, ac) == FlightPhase::Approach,
{
}

/// A flight whose aircraft is in the air and neither sinks by more than 500 feet a minute,
/// nor rises, nor says that it approaches, keeps its phase until it cruises; and so does one
/// of which no vertical rate is known.
pub proof fn law_phase_stays(phase: FlightPhase, polls: u32, ac: crate::aviation::Aircraft)
    requires
        in_the_air(ac),
        reported_rate(ac) is Some ==> -500 <= reported_rate(ac)->0 <= 0 && !(ac.nav_modes is Some
            && ac.nav_modes->0.contains("approach"@)),
    ensures
        next_phase(phase, polls, ac) == phase || next_phase(phase, polls, ac)
            == FlightPhase::Cruise,
        reported_rate(ac) is None ==> next_phase(phase, polls, ac) == phase,
{
}

// ---------------------------------------------------------------------------
// What the chat is told
// ---------------------------------------------------------------------------

/// The name of a flight is its callsign where that is known, else what it is tracked by.
pub proof fn law_flight_is_called_by_callsign(f: Flight)
    ensures
        f.callsign is Some ==> flight_name(f) == f.callsign->0,
        f.callsign is None ==> (f.identifier matches Identifier::Callsign(s) ==> flight_name(f)
            == s) && (f.identifier matches Identifier::Hex(s) ==> flight_name(f) == s),
{
}

/// What is said of a flight begins with its name and holds its type, its origin and its
/// destination, as far as they are known, the origin first.
pub proof fn law_prefix_tells_all(f: Flight)
    ensures
        text::has_prefix(prefix_text(f), flight_name(f)),
        f.aircraft_type is Some ==> text::has(prefix_text(f), f.aircraft_type->0),
        f.route matches Some((origin, destination)) ==> text::has_suffix(
            prefix_text(f),
            origin + "\u{2192}"@ + destination,
        ),
        f.aircraft_type is None && f.route is None ==> prefix_text(f) == flight_name(f),
{
    let s = prefix_text(f);
    let name = flight_name(f);
    assert(s.subrange(0, name.len() as int) =~= name);
    if f.aircraft_type is Some {
        let t = f.aircraft_type->0;
        assert(s =~= (name + " ("@) + t + (")"@ + route_text(f.route)));
        text::law_whole_holds_part(name + " ("@, t, ")"@ + route_text(f.route));
    }
    if let Some((origin, destination)) = f.route {
        let tail = origin + "\u{2192}"@ + destination;
        assert(s =~= name + type_text(f.aircraft_type) + " "@ + tail);
        assert(s.subrange(s.len() - tail.len(), s.len() as int) =~= tail);
    }
    if f.aircraft_type is None && f.route is None {
        assert(s =~= name);
    }
}

/// Every announcement about a flight holds what is said of the flight, and no two of them
/// are worded alike.
pub proof fn law_announcements_name_the_flight(
    f: Flight,
    code: Seq<char>,
    meaning: Seq<char>,
    now: int,
)
    ensures
        text::has(track_started_text(f), prefix_text(f)),
        text::has_prefix(takeoff_text(f), prefix_text(f)),
        text::has_prefix(cruise_text(f), prefix_text(f)),
        text::has_suffix(cruise_text(f), alt_text(f.altitude_ft)),
        text::has_prefix(descent_text(f), prefix_text(f)),
        text::has(descent_text(f), "Descent"@),
        text::has_prefix(approach_text(f), prefix_text(f)),
        text::has(approach_text(f), "Approach"@),
        text::has_prefix(landing_text(f, now), prefix_text(f)),
        text::has(landing_text(f, now), "gelandet"@),
        text::has_suffix(landing_text(f, now), duration_text(now - f.tracked_at@)),
        text::has(squawk_text(f, code, meaning), prefix_text(f)),
        text::has(squawk_text(f, code, meaning), code),
        text::has(squawk_text(f, code, meaning), meaning),
        text::has(divert_text(f), prefix_text(f)),
        text::has(divert_text(f), "divert"@),
        text::has_prefix(lost_text(f), flight_name(f)),
        text::has(lost_text(f), "verloren"@),
        text::has(takeoff_text(f), "gestartet"@),
{
    let p = prefix_text(f);
    let e = Seq::<char>::empty();
    reveal_strlit("Tracke ");
    text::law_whole_holds_part("Tracke "@, p, " Okayge"@);
    assert(takeoff_text(f).subrange(0, p.len() as int) =~= p);
    assert(cruise_text(f).subrange(0, p.len() as int) =~= p);
    let c = cruise_text(f);
    let a = alt_text(f.altitude_ft);
    assert(c.subrange(c.len() - a.len(), c.len() as int) =~= a);
    assert(descent_text(f).subrange(0, p.len() as int) =~= p);
    assert(approach_text(f).subrange(0, p.len() as int) =~= p);
    let l = landing_text(f, now);
    let d = duration_text(now - f.tracked_at@);
    assert(l.subrange(0, p.len() as int) =~= p);
    assert(l.subrange(l.len() - d.len(), l.len() as int) =~= d);
    reveal_strlit(" hat Descent eingeleitet");
    reveal_strlit("Descent");
    assert(descent_text(f).subrange((p.len() + 5) as int, (p.len() + 12) as int) =~= "Descent"@);
    assert(text::matches_at(descent_text(f), "Descent"@, (p.len() + 5) as int));
    reveal_strlit(" ist im Approach");
    reveal_strlit("Approach");
    assert(approach_text(f).subrange((p.len() + 8) as int, (p.len() + 16) as int) =~= "Approach"@);
    assert(text::matches_at(approach_text(f), "Approach"@, (p.len() + 8) as int));
    reveal_strlit(" ist gelandet! Flugzeit: ");
    reveal_strlit("gelandet");
    assert(l.subrange((p.len() + 5) as int, (p.len() + 13) as int) =~= "gelandet"@);
    assert(text::matches_at(l, "gelandet"@, (p.len() + 5) as int));
    reveal_strlit(" ist gestartet! \u{2708}");
    reveal_strlit("gestartet");
    assert(takeoff_text(f).subrange((p.len() + 5) as int, (p.len() + 14) as int) =~= "gestartet"@);
    assert(text::matches_at(takeoff_text(f), "gestartet"@, (p.len() + 5) as int));
    let w = "\u{26a0} "@;
    assert(squawk_text(f, code, meaning) =~= w + p + (" squawkt "@ + code + "! ("@ + meaning
        + ")"@));
    text::law_whole_holds_part(w, p, " squawkt "@ + code + "! ("@ + meaning + ")"@);
    assert(squawk_text(f, code, meaning) =~= (w + p + " squawkt "@) + code + ("! ("@ + meaning
        + ")"@));
    text::law_whole_holds_part(w + p + " squawkt "@, code, "! ("@ + meaning + ")"@);
    text::law_whole_holds_part(w + p + " squawkt "@ + code + "! ("@, meaning, ")"@);
    text::law_whole_holds_part(w, p, " scheint zu diverten!"@);
    reveal_strlit(" scheint zu diverten!");
    reveal_strlit("divert");
    let v = divert_text(f);
    assert(v.subrange(w.len() + (p.len() + 12) as int, (w.len() + p.len() + 18) as int) =~= "divert"@);
    assert(text::matches_at(v, "divert"@, (w.len() + p.len() + 12) as int));
    let n = flight_name(f);
    assert(lost_text(f).subrange(0, n.len() as int) =~= n);
    reveal_strlit(" Signal verloren, wird nicht mehr getrackt");
    reveal_strlit("verloren");
    assert(lost_text(f).subrange((n.len() + 8) as int, (n.len() + 16) as int) =~= "verloren"@);
    assert(text::matches_at(lost_text(f), "verloren"@, (n.len() + 8) as int));
}


// ---------------------------------------------------------------------------
// What requests and polls do
// ---------------------------------------------------------------------------

/// The user who tracks a flight, and every moderator, can end that: the flight that the
/// query names is gone, and all others stay, in their order. Nobody else can change
/// anything, nor can a query that names no flight.
pub proof fn law_owner_and_mods_untrack(
    flights: Seq<Flight>,
    query: Seq<char>,
    user: Seq<char>,
    is_mod: bool,
    left: Seq<Flight>,
    changed: bool,
)
    requires
        untracked(flights, query, user, is_mod, left, changed),
    ensures
        (forall|j: int| 0 <= j < flights.len() ==> !answers_to(#[trigger] flights[j], query))
            ==> left == flights && !changed,
        forall|i: int|
            0 <= i < flights.len() && answers_to(#[trigger] flights[i], query) && (forall|j: int|
                0 <= j < i ==> !answers_to(#[trigger] flights[j], query)) ==> if is_mod
                || flights[i].tracked_by == user {
                &&& changed
                &&& left.len() == flights.len() - 1
                &&& forall|j: int| 0 <= j < i ==> left[j] == flights[j]
                &&& forall|j: int| i < j < flights.len() ==> left[j - 1] == flights[j]
            } else {
                left == flights && !changed
            },
{
    lemma_find_flight(flights, query);
    assert forall|i: int|
        0 <= i < flights.len() && answers_to(#[trigger] flights[i], query) && (forall|j: int|
            0 <= j < i ==> !answers_to(#[trigger] flights[j], query)) implies find_flight(
        flights,
        query,
    ) == Some(i) by {
        lemma_find_flight_is(flights, query, Some(i));
    }
}

/// A flight is named by what it is tracked by, by its callsign and by its hex code,
/// whatever the case; and by nothing else.
pub proof fn law_flight_is_named(f: Flight, query: Seq<char>)
    ensures
        answers_to(f, query) <==> {
            ||| f.identifier matches Identifier::Callsign(s) && text::lower(s) == text::lower(query)
            ||| f.identifier matches Identifier::Hex(s) && text::lower(s) == text::lower(query)
            ||| f.callsign is Some && text::lower(f.callsign->0) == text::lower(query)
            ||| f.hex is Some && text::lower(f.hex->0) == text::lower(query)
        },
{
}

/// A user can track a flight as long as fewer than twelve are tracked, fewer than three of
/// them by that user, and not this one; the aircraft is then looked up by what the user
/// gave. Otherwise the user is refused.
pub proof fn law_tracking_is_limited(flights: Seq<Flight>, id: Identifier, user: Seq<char>)
    ensures
        track_start(flights, id, user) is Ok <==> flights.len() < 12 && count_by(flights, user) < 3
            && !already_tracked(flights, id),
        track_start(flights, id, user) is Ok ==> match id {
            Identifier::Hex(h) => track_start(flights, id, user) == Ok::<Query, Seq<char>>(
                Query::ByHex(h),
            ),
            Identifier::Callsign(c) => track_start(flights, id, user) == Ok::<Query, Seq<char>>(
                Query::ByCallsign(c),
            ),
        },
{
}

/// A flight counts as tracked already under the same identifier, and under a callsign or
/// hex code that one has, whatever the case.
pub proof fn law_tracked_already(flights: Seq<Flight>, id: Identifier)
    ensures
        already_tracked(flights, id) <==> exists|i: int|
            0 <= i < flights.len() && {
                let f = #[trigger] flights[i];
                ||| f.identifier == id
                ||| id matches Identifier::Callsign(s) && f.callsign is Some && text::lower(
                    f.callsign->0,
                ) == text::lower(s)
                ||| id matches Identifier::Hex(s) && f.hex is Some && text::lower(f.hex->0)
                    == text::lower(s)
            },
{
    if already_tracked(flights, id) {
        let i = choose|i: int| 0 <= i < flights.len() && #[trigger] is_tracked_as(flights[i], id);
        assert(flights[i] == flights[i]);
    }
    assert forall|i: int| 0 <= i < flights.len() implies is_tracked_as(
        #[trigger] flights[i],
        id,
    ) == {
        let f = flights[i];
        ||| f.identifier == id
        ||| id matches Identifier::Callsign(s) && f.callsign is Some && text::lower(f.callsign->0)
            == text::lower(s)
        ||| id matches Identifier::Hex(s) && f.hex is Some && text::lower(f.hex->0) == text::lower(s)
    } by {}
}

/// The flights of a user are counted one by one.
pub proof fn law_flights_are_counted(flights: Seq<Flight>, f: Flight, user: Seq<char>)
    ensures
        count_by(Seq::empty(), user) == 0,
        f.tracked_by == user ==> count_by(flights.push(f), user) == count_by(flights, user) + 1,
        f.tracked_by != user ==> count_by(flights.push(f), user) == count_by(flights, user),
{
    lemma_push_count(flights, f, user);
}

/// Six hexadecimal digits are a hex code, everything else is a callsign; both in upper case
/// and without white space around them.
pub proof fn law_identifier_is_read(input: Seq<char>)
    ensures
        ({
            let s = text::unicode_upper(text::trim(input));
            let six = s.len() == 6 && forall|i: int| 0 <= i < 6 ==> text::is_hex(#[trigger] s[i]);
            &&& six ==> identifier_of(input) == Identifier::Hex(s)
            &&& !six ==> identifier_of(input) == Identifier::Callsign(s)
        }),
{
}

/// A flight that tracking begins with belongs to the user who asked, from now on, and holds
/// what the aircraft reports; of a route it knows where it begins and ends, but only where
/// the aircraft reports a callsign.
pub proof fn law_new_flight_is_the_aircraft(
    id: Identifier,
    user: Seq<char>,
    ac: crate::aviation::Aircraft,
    route: Option<Route>,
    now: Timestamp,
)
    ensures
        ({
            let f = new_flight(id, user, ac, route, now);
            &&& f.identifier == id && f.tracked_by == user && f.tracked_at == now
            &&& f.last_seen == Some(now)
            &&& f.hex == ac.hex && f.aircraft_type == ac.t && f.squawk == ac.squawk
            &&& f.lat == ac.lat && f.lon == ac.lon && f.ground_speed_kts == ac.gs
            &&& f.vertical_rate_fpm == reported_rate(ac)
            &&& ac.alt_baro matches Some(AltBaro::Feet(ft)) ==> f.altitude_ft == Some(ft)
            &&& ac.alt_baro matches Some(AltBaro::Ground) ==> f.altitude_ft == Some(0i64)
            &&& ac.alt_baro is None ==> f.altitude_ft is None
            &&& f.polls_since_change == 0 && f.divert_consecutive_polls == 0
            &&& ac.flight is None ==> f.callsign is None
            &&& ac.flight is Some && text::trim(ac.flight->0).len() > 0 ==> f.callsign == Some(
                text::trim(ac.flight->0),
            )
            &&& route is Some && f.callsign is Some ==> f.route == Some(
                (route->0.origin, route->0.destination),
            )
            &&& route is Some && f.callsign is Some ==> (route->0.dest_coords matches Some(c)
                ==> f.dest_lat == Some(c.0) && f.dest_lon == Some(c.1))
            &&& route is None || f.callsign is None ==> f.route is None && f.dest_lat is None
        }),
{
}

/// A poll that finds the aircraft takes over what it reports, and keeps the callsign, the
/// hex code, the type and the route that were known before.
pub proof fn law_poll_takes_over_data(
    f: Flight,
    ac: crate::aviation::Aircraft,
    route: Option<Route>,
    b: Option<Bearings>,
    now: Timestamp,
)
    ensures
        ({
            let step = seen(f, ac, route, b, now);
            let g = step.flight->0;
            &&& step.flight is Some
            &&& g.last_seen == Some(now)
            &&& g.lat == ac.lat && g.lon == ac.lon && g.ground_speed_kts == ac.gs
            &&& g.squawk == ac.squawk && g.vertical_rate_fpm == reported_rate(ac)
            &&& ac.alt_baro matches Some(AltBaro::Feet(ft)) ==> g.altitude_ft == Some(ft)
            &&& ac.alt_baro matches Some(AltBaro::Ground) ==> g.altitude_ft == Some(0i64)
            &&& ac.alt_baro is None ==> g.altitude_ft is None
            &&& f.callsign is Some ==> g.callsign == f.callsign
            &&& f.callsign is None && ac.flight is Some && text::trim(ac.flight->0).len() > 0
                ==> g.callsign == Some(text::trim(ac.flight->0))
            &&& f.hex is Some ==> g.hex == f.hex
            &&& f.hex is None ==> g.hex == ac.hex
            &&& f.aircraft_type is Some ==> g.aircraft_type == f.aircraft_type
            &&& f.aircraft_type is None ==> g.aircraft_type == ac.t
            &&& f.route is Some ==> g.route == f.route
            &&& f.route is None && f.callsign is None && g.callsign is Some && route is Some
                ==> g.route == Some((route->0.origin, route->0.destination))
        }),
{
}

/// A poll puts a flight into the phase that its aircraft shows; one that landed is on the
/// ground afterwards. A change is dated and saved, and the polls since are counted.
pub proof fn law_poll_turns_the_phase(
    f: Flight,
    ac: crate::aviation::Aircraft,
    route: Option<Route>,
    b: Option<Bearings>,
    now: Timestamp,
)
    ensures
        ({
            let next = next_phase(f.phase, f.polls_since_change, ac);
            let step = seen(f, ac, route, b, now);
            let g = step.flight->0;
            &&& next == FlightPhase::Landing && f.phase != FlightPhase::Landing ==> g.phase
                == FlightPhase::Ground
            &&& next != FlightPhase::Landing ==> g.phase == next
            &&& next != f.phase ==> g.last_phase_change == Some(now) && g.polls_since_change == 0
                && step.changed
            &&& next == f.phase ==> g.last_phase_change == f.last_phase_change
            &&& next == f.phase && f.polls_since_change < u32::MAX ==> g.polls_since_change
                == f.polls_since_change + 1
        }),
{
}

/// The chat is told when a flight takes off, cruises, descends, approaches or lands, with
/// what is said of the flight and of the phase; and a phase that stays is not told again.
pub proof fn law_turns_are_announced(
    f: Flight,
    ac: crate::aviation::Aircraft,
    route: Option<Route>,
    b: Option<Bearings>,
    now: Timestamp,
)
    ensures
        ({
            let next = next_phase(f.phase, f.polls_since_change, ac);
            let step = seen(f, ac, route, b, now);
            let name = flight_name(step.flight->0);
            let told = |word: Seq<char>|
                exists|i: int|
                    0 <= i < step.messages.len() && text::has_prefix(
                        #[trigger] step.messages[i],
                        name,
                    ) && text::has(step.messages[i], word);
            &&& next != f.phase && next == FlightPhase::Takeoff ==> told("gestartet"@)
            &&& next != f.phase && next == FlightPhase::Descent ==> told("Descent"@)
            &&& next != f.phase && next == FlightPhase::Approach ==> told("Approach"@)
            &&& next != f.phase && next == FlightPhase::Landing ==> told("gelandet"@)
            &&& next != f.phase && next == FlightPhase::Cruise ==> told(
                alt_text(step.flight->0.altitude_ft),
            )
            &&& next == f.phase && f.squawk == ac.squawk && b is None ==> step.messages.len() == 0
        }),
{
    let next = next_phase(f.phase, f.polls_since_change, ac);
    let known = Flight { last_seen: Some(now), ..resolved(f, ac, route) };
    let data = with_data(known, ac);
    let step = seen(f, ac, route, b, now);
    let name = flight_name(step.flight->0);
    if next != f.phase && phase_message(in_phase(data, next, now), now@).len() > 0 {
        let g = in_phase(data, next, now);
        let m = phase_message(g, now@)[0];
        let i = squawk_warning(known, ac).len() as int;
        assert(step.messages[i] == m);
        law_announcements_name_the_flight(g, Seq::empty(), Seq::empty(), now@);
        law_prefix_tells_all(g);
        assert(flight_name(g) == name);
        lemma_prefix_of_prefix(m, prefix_text(g), name);
        if next == FlightPhase::Cruise {
            let a = alt_text(g.altitude_ft);
            assert(text::matches_at(m, a, m.len() - a.len()));
        }
    }
}

proof fn lemma_prefix_of_prefix(s: Seq<char>, p: Seq<char>, q: Seq<char>)
    requires
        text::has_prefix(s, p),
        text::has_prefix(p, q),
    ensures
        text::has_prefix(s, q),
{
    assert(s.subrange(0, p.len() as int) == p);
    assert(p.subrange(0, q.len() as int) == q);
    assert(s.subrange(0, q.len() as int) =~= q) by {
        assert forall|k: int| 0 <= k < q.len() implies s[k] == q[k] by {
            assert(p[k] == s.subrange(0, p.len() as int)[k]);
            assert(q[k] == p.subrange(0, q.len() as int)[k]);
        }
    }
}

/// The chat is warned when a flight begins to send 7500, 7600 or 7700, with the code, what
/// it means and what is said of the flight; it is not warned of other codes, nor again of
/// the same one.
pub proof fn law_emergencies_are_announced(f: Flight, ac: crate::aviation::Aircraft)
    ensures
        squawk_meaning("7500"@) == Some("Hijack"@),
        squawk_meaning("7600"@) == Some("Radio Failure"@),
        squawk_meaning("7700"@) == Some("Emergency"@),
        ac.squawk matches Some(code) ==> f.squawk != Some(code) && (code == "7500"@ || code
            == "7600"@ || code == "7700"@) ==> {
            &&& squawk_warning(f, ac).len() == 1
            &&& text::has(squawk_warning(f, ac)[0], code)
            &&& text::has(squawk_warning(f, ac)[0], squawk_meaning(code)->0)
            &&& text::has(squawk_warning(f, ac)[0], prefix_text(f))
        },
        f.squawk == ac.squawk || ac.squawk is None ==> squawk_warning(f, ac).len() == 0,
        ac.squawk matches Some(code) ==> code != "7500"@ && code != "7600"@ && code != "7700"@
            ==> squawk_warning(f, ac).len() == 0,
{
    reveal_strlit("7500");
    reveal_strlit("7600");
    reveal_strlit("7700");
    assert("7500"@[1] != "7600"@[1]);
    assert("7500"@[1] != "7700"@[1]);
    assert("7600"@[1] != "7700"@[1]);
    if let Some(code) = ac.squawk {
        if squawk_meaning(code) is Some {
            law_announcements_name_the_flight(f, code, squawk_meaning(code)->0, 0);
        }
    }
}

/// What a poll warns of is part of what it tells.
pub proof fn law_warnings_are_told(
    f: Flight,
    ac: crate::aviation::Aircraft,
    route: Option<Route>,
    b: Option<Bearings>,
    now: Timestamp,
)
    ensures
        ({
            let step = seen(f, ac, route, b, now);
            let known = Flight { last_seen: Some(now), ..resolved(f, ac, route) };
            &&& squawk_warning(known, ac).len() > 0 ==> step.messages.len() > 0
                && step.messages.first() == squawk_warning(known, ac)[0]
            &&& known.squawk == f.squawk
            &&& divert_message(f, polled(f, ac, route, now), b).len() > 0 ==> step.messages.len()
                > 0 && step.messages.last() == divert_message(
                f,
                polled(f, ac, route, now),
                b,
            )[0]
        }),
{
}

/// A flight is off course where its course over ground and the course to its destination
/// are more than a quarter turn apart, the shorter way round.
pub proof fn law_off_course_is_a_quarter_turn(b: Bearings)
    requires
        b.ground_track < 360_000,
        b.to_destination < 360_000,
    ensures
        ({
            let d = b.ground_track - b.to_destination;
            off_course(b) <==> (90_000 < d < 270_000 || -270_000 < d < -90_000)
        }),
{
}

/// While a flight descends or approaches, polls off course are counted, one on course
/// starts the count anew, and at the third in a row the chat is told; in every other phase
/// nothing is counted or told.
pub proof fn law_diverts_are_announced(before: Flight, f: Flight, b: Bearings)
    requires
        before.lat is Some && before.lon is Some && f.lat is Some && f.lon is Some,
        f.dest_lat is Some && f.dest_lon is Some,
        f.divert_consecutive_polls < u32::MAX,
    ensures
        f.phase == FlightPhase::Descent || f.phase == FlightPhase::Approach ==> {
            &&& off_course(b) ==> divert_count(before, f, Some(b)) == f.divert_consecutive_polls + 1
            &&& !off_course(b) ==> divert_count(before, f, Some(b)) == 0
            &&& divert_message(before, f, Some(b)).len() == 1 <==> off_course(b)
                && f.divert_consecutive_polls == 2
            &&& divert_message(before, f, Some(b)).len() == 1 ==> text::has(
                divert_message(before, f, Some(b))[0],
                prefix_text(f),
            )
        },
        f.phase != FlightPhase::Descent && f.phase != FlightPhase::Approach ==> divert_count(
            before,
            f,
            Some(b),
        ) == 0 && divert_message(before, f, Some(b)).len() == 0,
{
    law_announcements_name_the_flight(f, Seq::empty(), Seq::empty(), 0);
}

/// A flight that is not found is given up once it was last seen half an hour ago, and the
/// chat is told by name; until then it stays.
pub proof fn law_lost_flights_are_given_up(f: Flight, now: Timestamp)
    ensures
        f.last_seen matches Some(t) ==> now@ - t@ >= 1_800_000_000_000 ==> {
            &&& unseen(f, now).flight is None
            &&& unseen(f, now).changed
            &&& unseen(f, now).messages.len() == 1
            &&& text::has_prefix(unseen(f, now).messages[0], flight_name(f))
        },
        f.last_seen matches Some(t) ==> now@ - t@ < 1_800_000_000_000 ==> unseen(f, now).flight
            == Some(f) && unseen(f, now).messages.len() == 0,
        f.last_seen is None ==> unseen(f, now).flight == Some(f),
{
    law_announcements_name_the_flight(f, Seq::empty(), Seq::empty(), 0);
}

/// Each flight is dealt with by its own poll: the flights that stay do so in their order,
/// and all that the polls tell is told, in their order.
pub proof fn law_polls_are_dealt_with_in_order(
    flights: Seq<Flight>,
    results: Seq<PollResult>,
    f: Flight,
    r: PollResult,
    now: Timestamp,
)
    requires
        flights.len() == results.len(),
    ensures
        ({
            let before = steps_of(flights, results, now);
            let all = steps_of(flights.push(f), results.push(r), now);
            let one = step(f, r, now);
            &&& all_messages(all) == all_messages(before) + one.messages
            &&& one.flight is Some ==> kept(all) == kept(before).push(one.flight->0)
            &&& one.flight is None ==> kept(all) == kept(before)
        }),
{
    let before = steps_of(flights, results, now);
    let all = steps_of(flights.push(f), results.push(r), now);
    assert(all.drop_last() =~= before);
}

/// A poll asks by hex code wherever one is known, else by callsign; the courses that it
/// measures are those from the last position over the present one, to the destination.
pub proof fn law_polls_ask_for_the_flight(
    f: Flight,
    ac: crate::aviation::Aircraft,
    route: Option<Route>,
)
    ensures
        f.identifier matches Identifier::Hex(h) ==> poll_query_of(f) == Query::ByHex(h),
        f.identifier matches Identifier::Callsign(c) ==> (f.hex matches Some(h) ==> poll_query_of(
            f,
        ) == Query::ByHex(h)) && (f.hex is None ==> poll_query_of(f) == Query::ByCallsign(c)),
        course_query_of(f, ac, route) matches Some(q) ==> {
            &&& f.lat == Some(q.previous.0) && f.lon == Some(q.previous.1)
            &&& ac.lat == Some(q.current.0) && ac.lon == Some(q.current.1)
            &&& f.route is Some || route is None ==> f.dest_lat == Some(q.destination.0)
                && f.dest_lon == Some(q.destination.1)
        },
        f.lat is Some && f.lon is Some && ac.lat is Some && ac.lon is Some && f.dest_lat is Some
            && f.dest_lon is Some ==> course_query_of(f, ac, route) is Some,
{
}

/// Polls come every 30 seconds while a flight takes off, approaches or lands, or changed
/// within five polls; else every 60 seconds while one climbs or descends; else every 120.
pub proof fn law_polls_adapt(flights: Seq<Flight>)
    ensures
        poll_interval(flights) == 30 || poll_interval(flights) == 60 || poll_interval(flights)
            == 120,
        poll_interval(flights) == 30 <==> exists|i: int|
            0 <= i < flights.len() && {
                let f = #[trigger] flights[i];
                f.polls_since_change < 5 || f.phase == FlightPhase::Takeoff || f.phase
                    == FlightPhase::Approach || f.phase == FlightPhase::Landing
            },
        poll_interval(flights) == 120 ==> forall|i: int|
            0 <= i < flights.len() ==> (#[trigger] flights[i]).phase != FlightPhase::Climb
                && flights[i].phase != FlightPhase::Descent,
        (forall|i: int|
            0 <= i < flights.len() ==> (#[trigger] flights[i]).phase == FlightPhase::Cruise
                && flights[i].polls_since_change >= 5) ==> poll_interval(flights) == 120,
{
    if exists|i: int| 0 <= i < flights.len() && needs_fast(#[trigger] flights[i]) {
        let i = choose|i: int| 0 <= i < flights.len() && needs_fast(#[trigger] flights[i]);
        assert(flights[i] == flights[i]);
    }
}

/// The status of a flight tells its name, its phase, its altitude, its squawk and for how
/// long it is tracked.
pub proof fn law_status_tells_all(f: Flight, now: int)
    ensures
        text::has_prefix(status_text(f, now), prefix_text(f)),
        text::has(status_text(f, now), phase_text(f.phase)),
        text::has(status_text(f, now), alt_text(f.altitude_ft)),
        text::has(status_text(f, now), duration_text(now - f.tracked_at@)),
        f.squawk is Some ==> text::has(status_text(f, now), f.squawk->0),
        f.ground_speed_kts is Some ==> text::has(
            status_text(f, now),
            rounded_text(f.ground_speed_kts->0 as int),
        ),
        text::has_prefix(list_entry(f), flight_name(f)),
        text::has(list_entry(f), phase_text(f.phase)),
        text::has(list_entry(f), alt_text(f.altitude_ft)),
{
    broadcast use text::group_parts;

}

/// Phases have different names.
pub proof fn law_phases_have_names(p: FlightPhase, q: FlightPhase)
    requires
        p != q,
    ensures
        phase_text(p) != phase_text(q),
        phase_text(p).len() > 0,
{
    reveal_strlit("Unknown");
    reveal_strlit("Ground");
    reveal_strlit("Takeoff");
    reveal_strlit("Climb");
    reveal_strlit("Cruise");
    reveal_strlit("Descent");
    reveal_strlit("Approach");
    reveal_strlit("Landing");
    assert(phase_text(p)[0] != phase_text(q)[0] || phase_text(p)[1] != phase_text(q)[1]);
}

/// A span below an hour is told in minutes, a longer one in hours and minutes.
pub proof fn law_spans_are_told(nanos: int)
    requires
        0 <= nanos,
    ensures
        ({
            let minutes = nanos / 60_000_000_000;
            &&& minutes < 60 ==> duration_text(nanos) == text::decimal(minutes as nat) + "m"@
            &&& minutes >= 60 ==> duration_text(nanos) == text::decimal((minutes / 60) as nat)
                + "h"@ + text::two_digits((minutes % 60) as nat) + "m"@
        }),
{
    assert(nanos / 1_000_000_000 / 60 == nanos / 60_000_000_000);
    assert(nanos / 1_000_000_000 / 3600 == nanos / 60_000_000_000 / 60);
}


/// Where an aircraft was found, it is tracked behind the others, and the user is told its
/// name; otherwise nothing changes, and a user is told by name what was not found.
pub proof fn law_found_aircraft_are_tracked(
    flights: Seq<Flight>,
    id: Identifier,
    user: Seq<char>,
    l: Lookup,
    route: Option<Route>,
    now: Timestamp,
)
    ensures
        ({
            let r = tracking_begun(flights, id, user, l, route, now);
            &&& l matches Lookup::Found(ac) ==> {
                &&& r.1.len() == flights.len() + 1
                &&& forall|i: int| 0 <= i < flights.len() ==> r.1[i] == flights[i]
                &&& r.1.last().tracked_by == user
                &&& r.1.last().identifier == id
                &&& r.1.last().hex == ac@.hex
                &&& r.1.last().phase == next_phase(FlightPhase::Unknown, 0, ac@)
                &&& text::has(r.0, flight_name(r.1.last()))
            }
            &&& !(l is Found) ==> r.1 == flights
            &&& l is NotFound ==> text::has_prefix(r.0, id.name())
        }),
{
    broadcast use text::group_parts;

    if let Lookup::Found(ac) = l {
        let f = new_flight(id, user, ac@, route, now);
        law_prefix_tells_all(f);
        assert(text::has_prefix(prefix_text(f), flight_name(f)));
        text::law_prefix_is_held(prefix_text(f), flight_name(f));
    }
}

/// The status of a flight is that of the first one that the query names; without a query
/// every flight is listed, and a query that names none is answered with itself.
pub proof fn law_status_is_of_the_named_flight(
    flights: Seq<Flight>,
    query: Seq<char>,
    now: int,
    i: int,
)
    requires
        0 <= i < flights.len(),
    ensures
        answers_to(flights[i], text::unicode_upper(query)) && (forall|j: int|
            0 <= j < i ==> !answers_to(#[trigger] flights[j], text::unicode_upper(query)))
            ==> status_reply(flights, Some(query), now) == status_text(flights[i], now),
        (forall|j: int|
            0 <= j < flights.len() ==> !answers_to(
                #[trigger] flights[j],
                text::unicode_upper(query),
            )) ==> text::has_prefix(status_reply(flights, Some(query), now), query),
        text::has(status_reply(flights, None, now), list_entry(flights[i])),
{
    broadcast use text::group_parts;

    let up = text::unicode_upper(query);
    lemma_find_flight(flights, up);
    if answers_to(flights[i], up) && (forall|j: int|
        0 <= j < i ==> !answers_to(#[trigger] flights[j], up)) {
        lemma_find_flight_is(flights, up, Some(i));
    }
    let entries = Seq::new(flights.len(), |i: int| list_entry(flights[i]));
    text::law_joined_holds_each(entries, " | "@, i);
    assert(entries[i] == list_entry(flights[i]));
}

/// A poll for which no answer came changes nothing; one that found the aircraft or did not
/// is dealt with as such.
pub proof fn law_polls_without_answer_change_nothing(f: Flight, r: PollResult, now: Timestamp)
    ensures
        r is Unavailable ==> step(f, r, now).flight == Some(f) && step(f, r, now).messages.len() == 0
            && !step(f, r, now).changed,
        r is NotFound ==> step(f, r, now) == unseen(f, now),
        r matches PollResult::Found { ac, route, bearings } ==> step(f, r, now).flight is Some
            && step(f, r, now).flight->0.last_seen == Some(now) && step(f, r, now).flight->0.lat
            == ac@.lat,
{
}

/// Nothing else of a flight changes with a poll: by what and by whom it is tracked, and since
/// when.
pub proof fn law_polls_keep_the_request(
    f: Flight,
    ac: crate::aviation::Aircraft,
    route: Option<Route>,
    b: Option<Bearings>,
    now: Timestamp,
)
    ensures
        ({
            let g = seen(f, ac, route, b, now).flight->0;
            &&& g.identifier == f.identifier && g.tracked_by == f.tracked_by && g.tracked_at
                == f.tracked_at
            &&& route is None || f.route is Some || f.callsign is Some ==> g.route == f.route
                && g.dest_lat == f.dest_lat && g.dest_lon == f.dest_lon
            &&& route is Some && f.route is None && f.callsign is None && g.callsign is Some ==> (
            route->0.dest_coords matches Some(c) ==> g.dest_lat == Some(c.0) && g.dest_lon == Some(
                c.1,
            ))
            &&& f.callsign is None && reported_callsign(ac) is Some ==> seen(
                f,
                ac,
                route,
                b,
                now,
            ).changed
        }),
{
}

/// A route is fetched once an aircraft reports its callsign for the first time, as long as
/// none is known.
pub proof fn law_routes_are_fetched_once(f: Flight, ac: crate::aviation::Aircraft)
    ensures
        f.callsign is None && f.route is None && ac.flight is Some && text::trim(ac.flight->0).len()
            > 0 ==> route_wanted(f, ac) == Some(text::trim(ac.flight->0)),
        f.callsign is Some || f.route is Some || ac.flight is None ==> route_wanted(f, ac) is None,
{
}

/// Without the positions or the courses that it takes, the count of polls off course stays
/// as it is, and nothing is told.
pub proof fn law_unknown_courses_do_not_count(before: Flight, f: Flight, b: Option<Bearings>)
    requires
        f.phase == FlightPhase::Descent || f.phase == FlightPhase::Approach,
        b is None || before.lat is None || f.lon is None || f.dest_lat is None,
    ensures
        divert_count(before, f, b) == f.divert_consecutive_polls,
        divert_message(before, f, b).len() == 0,
{
}

/// Speeds and distances are told as whole numbers, to the nearest one.
pub proof fn law_speeds_are_rounded(thousandths: nat)
    ensures
        -500 <= 1000 * rounded(thousandths) - thousandths <= 500,
        rounded_text(thousandths as int) == text::decimal(rounded(thousandths)),
{
}

} // verus!

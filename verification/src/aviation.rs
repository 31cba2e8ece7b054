//! Aircraft, airports and the replies about what flies overhead.
use vstd::prelude::*;
use crate::flight_tracker;
use crate::table::Table;
use crate::text;
use crate::time;
use crate::time::Instant;
use crate::util;

verus! {

/// Barometric altitude of an aircraft.
#[derive(Debug, Clone, Copy, PartialEq, Eq, Structural)]
pub enum AltBaro {
    Feet(i64),
    Ground,
}

/// An aircraft as adsb.lol reports it. Speeds are thousandths of a knot and positions
/// millionths of a degree.
#[derive(Debug, Clone)]
pub struct NearbyAircraft {
    pub hex: Option<String>,
    pub flight: Option<String>,
    pub t: Option<String>,
    pub alt_baro: Option<AltBaro>,
    pub lat: Option<i64>,
    pub lon: Option<i64>,
    pub gs: Option<i64>,
    pub baro_rate: Option<i64>,
    pub geom_rate: Option<i64>,
    pub squawk: Option<String>,
    pub nav_modes: Option<Vec<String>>,
}

/// The contents of a `NearbyAircraft`.
#[verifier::ext_equal]
pub ghost struct Aircraft {
    pub hex: Option<Seq<char>>,
    pub flight: Option<Seq<char>>,
    pub t: Option<Seq<char>>,
    pub alt_baro: Option<AltBaro>,
    pub lat: Option<i64>,
    pub lon: Option<i64>,
    pub gs: Option<i64>,
    pub baro_rate: Option<i64>,
    pub geom_rate: Option<i64>,
    pub squawk: Option<Seq<char>>,
    pub nav_modes: Option<Seq<Seq<char>>>,
}

impl NearbyAircraft {
    pub open spec fn view(&self) -> Aircraft {
        Aircraft {
            hex: text::opt_view(self.hex),
            flight: text::opt_view(self.flight),
            t: text::opt_view(self.t),
            alt_baro: self.alt_baro,
            lat: self.lat,
            lon: self.lon,
            gs: self.gs,
            baro_rate: self.baro_rate,
            geom_rate: self.geom_rate,
            squawk: text::opt_view(self.squawk),
            nav_modes: match self.nav_modes {
                Some(modes) => Some(text::views(modes@)),
                None => None,
            },
        }
    }
}

pub const UP_SEARCH_RADIUS_NM: u16 = 15;

/// Timeout of the whole request, in seconds.
pub const UP_COMMAND_TIMEOUT: u64 = 20;

pub const UP_ADSBLOL_TIMEOUT: u64 = 10;

pub const UP_ADSBDB_TIMEOUT: u64 = 5;

pub const UP_NOMINATIM_TIMEOUT: u64 = 5;

pub const AIRLINE_LOOKUP_TIMEOUT: u64 = 5;

/// How many aircraft routes are looked up for.
pub const UP_MAX_CANDIDATES: usize = 10;

/// How many aircraft a reply names.
pub const UP_MAX_RESULTS: usize = 5;

/// The altitude, in feet, from which an aircraft is in sight within the whole radius.
pub const UP_CONE_REFERENCE_ALT_FT: i64 = 35_000;

// ---------------------------------------------------------------------------
// Codes
// ---------------------------------------------------------------------------

pub open spec fn all_digits(s: Seq<char>) -> bool {
    forall|i: int| 0 <= i < s.len() ==> text::is_digit(#[trigger] s[i])
}

pub open spec fn all_letters(s: Seq<char>) -> bool {
    forall|i: int| 0 <= i < s.len() ==> text::is_letter(#[trigger] s[i])
}

/// A German postal code: five digits.
pub open spec fn is_plz(s: Seq<char>) -> bool {
    s.len() == 5 && all_digits(s)
}

fn digits_from(v: &Vec<char>, from: usize) -> (r: bool)
    requires
        from <= v@.len(),
    ensures
        r == all_digits(v@.skip(from as int)),
{
    let ghost t = v@.skip(from as int);
    let mut i: usize = from;
    while i < v.len()
        invariant
            t == v@.skip(from as int),
            from <= i <= v@.len(),
            forall|j: int| 0 <= j < i - from ==> text::is_digit(#[trigger] t[j]),
        decreases v@.len() - i,
    {
        assert(t[i - from] == v@[i as int]);
        if !text::is_ascii_digit(v[i]) {
            return false;
        }
        i = i + 1;
    }
    true
}

fn letters_only(v: &Vec<char>) -> (r: bool)
    ensures
        r == all_letters(v@),
{
    let mut i: usize = 0;
    while i < v.len()
        invariant
            i <= v@.len(),
            forall|j: int| 0 <= j < i ==> text::is_letter(#[trigger] v@[j]),
        decreases v@.len() - i,
    {
        if !text::is_ascii_letter(v[i]) {
            return false;
        }
        i = i + 1;
    }
    true
}

/// A line of the table of postal codes: the code, the latitude and the longitude.
pub open spec fn plz_parts(line: Seq<char>) -> Option<(Seq<char>, Seq<char>, Seq<char>)> {
    match text::cut(line, ',') {
        None => None,
        Some((plz, rest)) => match text::cut(rest, ',') {
            None => None,
            Some((lat, lon)) => Some((plz, lat, lon)),
        },
    }
}

pub open spec fn triple_view(t: Option<(String, String, String)>) -> Option<
    (Seq<char>, Seq<char>, Seq<char>),
> {
    match t {
        Some(t) => Some((t.0@, t.1@, t.2@)),
        None => None,
    }
}

/// Splits a line of the table of postal codes. `None` where a part is missing.
pub fn plz_row(line: &str) -> (r: Option<(String, String, String)>)
    ensures
        triple_view(r) == plz_parts(line@),
{
    match text::split_once(line, ',') {
        None => None,
        Some((plz, rest)) => match text::split_once(rest.as_str(), ',') {
            None => None,
            Some((lat, lon)) => Some((plz, lat, lon)),
        },
    }
}

pub fn is_valid_plz(plz: &str) -> (r: bool)
    ensures
        r == is_plz(plz@),
{
    let v = text::chars_of(plz);
    assert(v@.skip(0) =~= v@);
    v.len() == 5 && digits_from(&v, 0)
}

/// An IATA flight number: two capital letters and one to four digits.
pub open spec fn is_flight_number(s: Seq<char>) -> bool {
    3 <= s.len() <= 6 && text::is_upper(s[0]) && text::is_upper(s[1]) && all_digits(s.skip(2))
}

pub fn is_iata_flight_number(s: &str) -> (r: bool)
    ensures
        r == is_flight_number(s@),
{
    let v = text::chars_of(s);
    if v.len() < 3 || v.len() > 6 {
        return false;
    }
    text::is_ascii_upper(v[0]) && text::is_ascii_upper(v[1]) && digits_from(&v, 2)
}

pub fn is_icao_pattern(s: &str) -> (r: bool)
    ensures
        r == (s@.len() == 4 && all_letters(s@)),
{
    let v = text::chars_of(s);
    v.len() == 4 && letters_only(&v)
}

pub fn is_iata_pattern(s: &str) -> (r: bool)
    ensures
        r == (s@.len() == 3 && all_letters(s@)),
{
    let v = text::chars_of(s);
    v.len() == 3 && letters_only(&v)
}

// ---------------------------------------------------------------------------
// Airlines
// ---------------------------------------------------------------------------

/// The pair of airline codes in a line of the table: two bytes, a comma, three bytes,
/// with white space around either.
pub open spec fn airline_entry(line: Seq<char>) -> Option<(Seq<char>, Seq<char>)> {
    match text::cut(line, ',') {
        Some((a, b)) => {
            let iata = text::trim(a);
            let icao = text::trim(b);
            if text::byte_len(iata) == 2 && text::byte_len(icao) == 3 {
                Some((iata, icao))
            } else {
                None
            }
        },
        None => None,
    }
}

/// The table that lines of airline codes stand for; a later line wins.
pub open spec fn airlines(lines: Seq<Seq<char>>) -> Map<Seq<char>, Seq<char>>
    decreases lines.len(),
{
    if lines.len() == 0 {
        Map::empty()
    } else {
        let rest = airlines(lines.drop_last());
        match airline_entry(lines.last()) {
            Some((iata, icao)) => rest.insert(iata, icao),
            None => rest,
        }
    }
}

pub open spec fn codes(t: Table<String>) -> Map<Seq<char>, Seq<char>> {
    t@.map_values(|s: String| s@)
}

/// Reads the table of airline codes, IATA to ICAO, from its lines.
pub fn airline_table(data: &str) -> (r: Table<String>)
    ensures
        r.wf(),
        codes(r) == airlines(text::parts(data@, '\n')),
{
    let lines = text::split(data, '\n');
    let ghost all = text::views(lines@);
    let mut out: Table<String> = Table::new();
    let mut i: usize = 0;
    proof {
        assert(all.take(0) =~= Seq::<Seq<char>>::empty());
        assert(codes(out) =~= Map::<Seq<char>, Seq<char>>::empty());
    }
    while i < lines.len()
        invariant
            all == text::views(lines@),
            out.wf(),
            i <= lines@.len(),
            codes(out) == airlines(all.take(i as int)),
        decreases lines@.len() - i,
    {
        let ghost before = codes(out);
        assert(all.take(i + 1).drop_last() =~= all.take(i as int));
        if let Some((a, b)) = text::split_once(lines[i].as_str(), ',') {
            let iata = text::trimmed(a.as_str());
            let icao = text::trimmed(b.as_str());
            if text::byte_length(iata.as_str()) == 2 && text::byte_length(icao.as_str()) == 3 {
                let ghost k = iata@;
                let ghost v = icao@;
                out.insert(iata, icao);
                assert(codes(out) =~= before.insert(k, v));
            }
        }
        i = i + 1;
    }
    assert(all.take(i as int) =~= all);
    out
}

/// How a callsign is found: it is ready, or an airline code is to be looked up first.
#[derive(Debug, Clone)]
pub enum CallsignStep {
    Ready(String),
    LookUpAirline(String),
}

/// The callsign of a flight number with the ICAO code of its airline.
pub open spec fn with_airline(input: Seq<char>, icao: Option<Seq<char>>) -> Seq<char> {
    match icao {
        Some(code) => code + input.skip(2),
        None => input,
    }
}

/// The callsign that an input stands for, or the airline that is to be looked up first.
pub open spec fn callsign_for(input: Seq<char>, airlines: Map<Seq<char>, Seq<char>>) -> Result<
    Seq<char>,
    Seq<char>,
> {
    if is_flight_number(input) {
        if airlines.contains_key(input.take(2)) {
            Ok(airlines[input.take(2)] + input.skip(2))
        } else {
            Err(input.take(2))
        }
    } else {
        Ok(input)
    }
}

/// Turns an IATA flight number into a callsign by the table of airlines; what is no
/// flight number is a callsign already. An airline that is not in the table is to be
/// looked up.
pub fn resolve_callsign(input: &str, table: &Table<String>) -> (r: CallsignStep)
    requires
        table.wf(),
    ensures
        match r {
            CallsignStep::Ready(s) => if is_flight_number(input@) {
                codes(*table).contains_key(input@.take(2)) && s@ == with_airline(
                    input@,
                    Some(codes(*table)[input@.take(2)]),
                )
            } else {
                s@ == input@
            },
            CallsignStep::LookUpAirline(s) => is_flight_number(input@) && s@ == input@.take(2)
                && !codes(*table).contains_key(s@),
        },
        match r {
            CallsignStep::Ready(s) => callsign_for(input@, codes(*table)) == Ok::<
                Seq<char>,
                Seq<char>,
            >(s@),
            CallsignStep::LookUpAirline(s) => callsign_for(input@, codes(*table)) == Err::<
                Seq<char>,
                Seq<char>,
            >(s@),
        },
{
    if !is_iata_flight_number(input) {
        return CallsignStep::Ready(input.to_owned());
    }
    let v = text::chars_of(input);
    let airline = text::string_of(&v, 0, 2);
    assert(v@.subrange(0, 2) =~= input@.take(2));
    match table.get(airline.as_str()) {
        Some(icao) => {
            let mut s = icao.clone();
            let number = text::string_of(&v, 2, v.len());
            assert(v@.subrange(2, v@.len() as int) =~= input@.skip(2));
            s.push_str(number.as_str());
            CallsignStep::Ready(s)
        },
        None => CallsignStep::LookUpAirline(airline),
    }
}

/// The callsign of a flight number after its airline was looked up; the number itself
/// where it was not found.
pub fn finish_callsign(input: &str, icao: &Option<String>) -> (r: String)
    requires
        is_flight_number(input@),
    ensures
        r@ == with_airline(input@, text::opt_view(*icao)),
{
    match icao {
        Some(code) => {
            let v = text::chars_of(input);
            let mut s = code.clone();
            let number = text::string_of(&v, 2, v.len());
            assert(v@.subrange(2, v@.len() as int) =~= input@.skip(2));
            s.push_str(number.as_str());
            s
        },
        None => input.to_owned(),
    }
}

// ---------------------------------------------------------------------------
// Airports
// ---------------------------------------------------------------------------

/// A row of the airport table. The coordinates are texts.
#[derive(Debug, Clone, PartialEq, Eq)]
pub struct AirportRow {
    pub icao: String,
    pub iata: String,
    pub name: String,
    pub lat: String,
    pub lon: String,
}

/// The contents of an `AirportRow`.
#[verifier::ext_equal]
pub ghost struct AirportLine {
    pub icao: Seq<char>,
    pub iata: Seq<char>,
    pub name: Seq<char>,
    pub lat: Seq<char>,
    pub lon: Seq<char>,
}

impl AirportRow {
    pub open spec fn view(&self) -> AirportLine {
        AirportLine {
            icao: self.icao@,
            iata: self.iata@,
            name: self.name@,
            lat: self.lat@,
            lon: self.lon@,
        }
    }
}

/// What the `csv` crate reads in a text without headers: for each record its fields, or
/// `None` where the record is broken.
pub uninterp spec fn csv_records(data: Seq<char>) -> Seq<Option<Seq<Seq<char>>>>;

pub open spec fn records_view(v: Seq<Option<Vec<String>>>) -> Seq<Option<Seq<Seq<char>>>> {
    Seq::new(v.len(), |i: int| crate::json::opt_views(v[i]))
}

/// Reads a text with a `csv::Reader` built by `csv::ReaderBuilder` without headers, and
/// collects the fields of its `records`. The result is named `csv_records`.
#[verifier::external_body]
fn read_csv(data: &str) -> (r: Vec<Option<Vec<String>>>)
    ensures
        records_view(r@) == csv_records(data@),
{
    let mut reader = csv::ReaderBuilder::new().has_headers(false).from_reader(data.as_bytes());
    reader
        .records()
        .map(|record| record.ok().map(|fields| fields.iter().map(|f| f.to_owned()).collect()))
        .collect()
}

/// The airport that a record stands for, where it has enough fields.
pub open spec fn airport_of(record: Option<Seq<Seq<char>>>) -> Option<AirportLine> {
    match record {
        Some(f) => if f.len() >= 5 {
            Some(
                AirportLine {
                    icao: text::trim(f[0]),
                    iata: text::trim(f[1]),
                    name: text::trim(f[2]),
                    lat: text::trim(f[3]),
                    lon: text::trim(f[4]),
                },
            )
        } else {
            None
        },
        None => None,
    }
}

/// The airports that records stand for, in order.
pub open spec fn airports_of(records: Seq<Option<Seq<Seq<char>>>>) -> Seq<AirportLine>
    decreases records.len(),
{
    if records.len() == 0 {
        Seq::empty()
    } else {
        let rest = airports_of(records.drop_last());
        match airport_of(records.last()) {
            Some(a) => rest.push(a),
            None => rest,
        }
    }
}

pub open spec fn rows_view(rows: Seq<AirportRow>) -> Seq<AirportLine> {
    Seq::new(rows.len(), |i: int| rows[i]@)
}

/// The airports among records that were read.
pub fn select_airports(records: &Vec<Option<Vec<String>>>) -> (r: Vec<AirportRow>)
    ensures
        rows_view(r@) == airports_of(records_view(records@)),
{
    let ghost all = records_view(records@);
    let mut out: Vec<AirportRow> = Vec::new();
    let mut i: usize = 0;
    proof {
        assert(all.take(0) =~= Seq::<Option<Seq<Seq<char>>>>::empty());
        assert(rows_view(out@) =~= Seq::<AirportLine>::empty());
    }
    while i < records.len()
        invariant
            all == records_view(records@),
            i <= records@.len(),
            rows_view(out@) == airports_of(all.take(i as int)),
        decreases records@.len() - i,
    {
        let ghost before = rows_view(out@);
        assert(all.take(i + 1).drop_last() =~= all.take(i as int));
        if let Some(f) = &records[i] {
            if f.len() >= 5 {
                let row = AirportRow {
                    icao: text::trimmed(f[0].as_str()),
                    iata: text::trimmed(f[1].as_str()),
                    name: text::trimmed(f[2].as_str()),
                    lat: text::trimmed(f[3].as_str()),
                    lon: text::trimmed(f[4].as_str()),
                };
                let ghost a = row@;
                out.push(row);
                assert(rows_view(out@) =~= before.push(a));
            }
        }
        i = i + 1;
    }
    assert(all.take(i as int) =~= all);
    out
}

/// Reads the rows of the airport table. Broken and short records are skipped.
pub fn airport_rows(data: &str) -> (r: Vec<AirportRow>)
    ensures
        rows_view(r@) == airports_of(csv_records(data@)),
{
    let records = read_csv(data);
    select_airports(&records)
}

/// A named place. Coordinates are millionths of a degree.
#[derive(Debug, Clone, PartialEq, Eq)]
pub struct Place {
    pub lat: i64,
    pub lon: i64,
    pub name: String,
}

/// The contents of a `Place`.
#[verifier::ext_equal]
pub ghost struct Spot {
    pub lat: i64,
    pub lon: i64,
    pub name: Seq<char>,
}

impl Place {
    pub open spec fn view(&self) -> Spot {
        Spot { lat: self.lat, lon: self.lon, name: self.name@ }
    }

    pub fn copy(&self) -> (r: Place)
        ensures
            r@ == self@,
    {
        Place { lat: self.lat, lon: self.lon, name: self.name.clone() }
    }
}

pub open spec fn spots(t: Table<Place>) -> Map<Seq<char>, Spot> {
    t@.map_values(|p: Place| p@)
}

/// A table of airports after one was entered under a code of so many bytes.
pub open spec fn entered(
    airports: Map<Seq<char>, Spot>,
    code: Seq<char>,
    bytes: nat,
    name: Seq<char>,
    lat: i64,
    lon: i64,
) -> Map<Seq<char>, Spot> {
    if text::byte_len(code) == bytes {
        airports.insert(code, Spot { lat, lon, name })
    } else {
        airports
    }
}

/// The coordinates of an airport in a table.
pub open spec fn coordinates(airports: Map<Seq<char>, Spot>, code: Seq<char>) -> Option<(i64, i64)> {
    if airports.contains_key(code) {
        Some((airports[code].lat, airports[code].lon))
    } else {
        None
    }
}

/// Airports by their ICAO and IATA codes.
#[derive(Debug, Clone)]
pub struct AirportData {
    pub by_icao: Table<Place>,
    pub by_iata: Table<Place>,
}

impl AirportData {
    pub open spec fn wf(&self) -> bool {
        self.by_icao.wf() && self.by_iata.wf()
    }

    pub fn new() -> (r: AirportData)
        ensures
            r.wf(),
            spots(r.by_icao) == Map::<Seq<char>, Spot>::empty(),
            spots(r.by_iata) == Map::<Seq<char>, Spot>::empty(),
    {
        let r = AirportData { by_icao: Table::new(), by_iata: Table::new() };
        proof {
            assert(spots(r.by_icao) =~= Map::<Seq<char>, Spot>::empty());
            assert(spots(r.by_iata) =~= Map::<Seq<char>, Spot>::empty());
        }
        r
    }

    /// Enters an airport under its ICAO code where that has four bytes, and under its
    /// IATA code where that has three. A later airport wins.
    pub fn insert(&mut self, row: &AirportRow, lat: i64, lon: i64)
        requires
            old(self).wf(),
        ensures
            final(self).wf(),
            ({
                let spot = Spot { lat, lon, name: row.name@ };
                &&& spots(final(self).by_icao) == if text::byte_len(row.icao@) == 4 {
                    spots(old(self).by_icao).insert(row.icao@, spot)
                } else {
                    spots(old(self).by_icao)
                }
                &&& spots(final(self).by_iata) == if text::byte_len(row.iata@) == 3 {
                    spots(old(self).by_iata).insert(row.iata@, spot)
                } else {
                    spots(old(self).by_iata)
                }
            }),
            spots(final(self).by_icao) == entered(
                spots(old(self).by_icao),
                row.icao@,
                4,
                row.name@,
                lat,
                lon,
            ),
            spots(final(self).by_iata) == entered(
                spots(old(self).by_iata),
                row.iata@,
                3,
                row.name@,
                lat,
                lon,
            ),
    {
        let ghost spot = Spot { lat, lon, name: row.name@ };
        if text::byte_length(row.icao.as_str()) == 4 {
            self.by_icao.insert(row.icao.clone(), Place { lat, lon, name: row.name.clone() });
            assert(spots(self.by_icao) =~= spots(old(self).by_icao).insert(row.icao@, spot));
        }
        if text::byte_length(row.iata.as_str()) == 3 {
            self.by_iata.insert(row.iata.clone(), Place { lat, lon, name: row.name.clone() });
            assert(spots(self.by_iata) =~= spots(old(self).by_iata).insert(row.iata@, spot));
        }
    }

    /// The coordinates of an airport by its IATA code.
    pub fn iata_to_coords(&self, code: &str) -> (r: Option<(i64, i64)>)
        requires
            self.wf(),
        ensures
            r == if spots(self.by_iata).contains_key(code@) {
                Some((spots(self.by_iata)[code@].lat, spots(self.by_iata)[code@].lon))
            } else {
                None
            },
            r == coordinates(spots(self.by_iata), code@),
    {
        match self.by_iata.get(code) {
            Some(p) => Some((p.lat, p.lon)),
            None => None,
        }
    }
}

/// Where an input is, as far as the tables know.
#[derive(Debug, Clone)]
pub enum Located {
    Found(Place),
    /// A postal code that is not in the table.
    PlzNotFound,
    /// The geocoder is to be asked.
    Geocode,
}

/// The contents of a `Located`.
#[verifier::ext_equal]
pub ghost enum Whereabouts {
    Found(Spot),
    PlzNotFound,
    Geocode,
}

impl Located {
    pub open spec fn view(&self) -> Whereabouts {
        match self {
            Located::Found(p) => Whereabouts::Found(p@),
            Located::PlzNotFound => Whereabouts::PlzNotFound,
            Located::Geocode => Whereabouts::Geocode,
        }
    }
}

/// Where an input is: a postal code only in its table; four letters as an ICAO code,
/// three letters as an IATA code, in upper case; all else is left to the geocoder.
pub open spec fn located(
    input: Seq<char>,
    upper: Seq<char>,
    plz: Map<Seq<char>, (i64, i64)>,
    icao: Map<Seq<char>, Spot>,
    iata: Map<Seq<char>, Spot>,
) -> Whereabouts {
    if is_plz(input) {
        if plz.contains_key(input) {
            Whereabouts::Found(Spot { lat: plz[input].0, lon: plz[input].1, name: input })
        } else {
            Whereabouts::PlzNotFound
        }
    } else if input.len() == 4 && all_letters(input) && icao.contains_key(upper) {
        Whereabouts::Found(icao[upper])
    } else if input.len() == 3 && all_letters(input) && iata.contains_key(upper) {
        Whereabouts::Found(iata[upper])
    } else {
        Whereabouts::Geocode
    }
}

/// Looks an input up in the tables, given its upper case.
pub fn locate_upper(
    input: &str,
    upper: &str,
    plz: &Table<(i64, i64)>,
    airports: &AirportData,
) -> (r: Located)
    requires
        plz.wf(),
        airports.wf(),
    ensures
        r@ == located(
            input@,
            upper@,
            plz@,
            spots(airports.by_icao),
            spots(airports.by_iata),
        ),
{
    if is_valid_plz(input) {
        return match plz.get(input) {
            Some(c) => Located::Found(Place { lat: c.0, lon: c.1, name: input.to_owned() }),
            None => Located::PlzNotFound,
        };
    }
    if is_icao_pattern(input) {
        if let Some(p) = airports.by_icao.get(upper) {
            return Located::Found(p.copy());
        }
    }
    if is_iata_pattern(input) {
        if let Some(p) = airports.by_iata.get(upper) {
            return Located::Found(p.copy());
        }
    }
    Located::Geocode
}

/// Looks an input up in the tables: postal code, ICAO code, IATA code.
pub fn resolve_location(input: &str, plz: &Table<(i64, i64)>, airports: &AirportData) -> (r:
    Located)
    requires
        plz.wf(),
        airports.wf(),
    ensures
        r@ == located(
            input@,
            text::unicode_upper(input@),
            plz@,
            spots(airports.by_icao),
            spots(airports.by_iata),
        ),
        text::upper_known(input@),
{
    let upper = text::to_uppercase(input);
    locate_upper(input, upper.as_str(), plz, airports)
}

/// The name of a place that a geocoder gave: what stands before the first comma.
pub open spec fn short_name(display: Seq<char>) -> Seq<char> {
    text::trim(text::parts(display, ',')[0])
}

pub fn shorten_name(display: &str) -> (r: String)
    ensures
        r@ == short_name(display@),
{
    let segments = text::split(display, ',');
    proof {
        assert(text::views(segments@).len() > 0) by {
            lemma_parts_nonempty(display@, ',');
        }
        assert(text::views(segments@)[0] == segments@[0]@);
    }
    text::trimmed(segments[0].as_str())
}

proof fn lemma_parts_nonempty(s: Seq<char>, c: char)
    ensures
        text::parts(s, c).len() > 0,
{
}

// ---------------------------------------------------------------------------
// What flies overhead
// ---------------------------------------------------------------------------

/// When users last asked, by name.
pub open spec fn uses(t: Table<Instant>) -> Map<Seq<char>, int> {
    t@.map_values(|i: Instant| i@)
}

/// Whether a user asked less than the wait ago.
pub open spec fn too_soon(last: Map<Seq<char>, int>, user: Seq<char>, wait: int, now: int) -> bool {
    last.contains_key(user) && time::passed(now, last[user]) < wait
}

/// Whether a request leads to a lookup.
pub open spec fn is_looked_up(
    last: Map<Seq<char>, int>,
    user: Seq<char>,
    input: Seq<char>,
    wait: int,
    now: int,
) -> bool {
    text::trim(input).len() > 0 && !too_soon(last, user, wait, now)
}

/// How a request begins: with a reply, or with the place to look up.
#[derive(Debug, Clone)]
pub enum UpStart {
    Reply(String),
    LookUp(String),
}

/// Begins a request: an empty one is answered with the usage, one too soon after the last
/// with a request to wait. Otherwise the user's wait begins, and the place is looked up.
pub fn start_up(
    cooldowns: &mut Table<Instant>,
    user: &str,
    input: &str,
    wait: time::Duration,
    now: Instant,
) -> (r: UpStart)
    requires
        old(cooldowns).wf(),
    ensures
        final(cooldowns).wf(),
        ({
            let place = text::trim(input@);
            if place.len() == 0 {
                &&& r matches UpStart::Reply(s) && s@ == "Benutzung: !up <PLZ/ICAO/IATA/Ort> FDM"@
                &&& uses(*final(cooldowns)) == uses(*old(cooldowns))
            } else if too_soon(uses(*old(cooldowns)), user@, wait@, now@) {
                &&& r matches UpStart::Reply(s) && s@ == "Bitte warte noch ein bisschen Waiting"@
                &&& uses(*final(cooldowns)) == uses(*old(cooldowns))
            } else {
                &&& r matches UpStart::LookUp(s) && s@ == place
                &&& uses(*final(cooldowns)) == uses(*old(cooldowns)).insert(user@, now@)
            }
        }),
        r is LookUp == is_looked_up(uses(*old(cooldowns)), user@, input@, wait@, now@),
        r is LookUp ==> uses(*final(cooldowns)) == uses(*old(cooldowns)).insert(user@, now@),
        r is Reply ==> uses(*final(cooldowns)) == uses(*old(cooldowns)),
{
    let place = text::trimmed(input);
    if text::char_count(place.as_str()) == 0 {
        return UpStart::Reply("Benutzung: !up <PLZ/ICAO/IATA/Ort> FDM".to_owned());
    }
    let waiting = match cooldowns.get(user) {
        Some(last) => now.since(last).nanos < wait.nanos,
        None => false,
    };
    if waiting {
        return UpStart::Reply("Bitte warte noch ein bisschen Waiting".to_owned());
    }
    cooldowns.insert(user.to_owned(), now);
    assert(uses(*cooldowns) =~= uses(*old(cooldowns)).insert(user@, now@));
    UpStart::LookUp(place)
}

/// The altitude of an aircraft that is in the air.
pub open spec fn airborne_feet(ac: Aircraft) -> Option<i64> {
    match ac.alt_baro {
        Some(AltBaro::Feet(ft)) => if ft > 0 {
            Some(ft)
        } else {
            None
        },
        _ => None,
    }
}

/// Whether an aircraft is in sight: its distance, in millionths of a nautical mile, is
/// within the radius that grows with its altitude.
pub open spec fn in_cone(ac: Aircraft, distance: int) -> bool {
    &&& ac.lat is Some && ac.lon is Some
    &&& airborne_feet(ac) is Some
    &&& distance * UP_CONE_REFERENCE_ALT_FT <= airborne_feet(ac)->0 * UP_SEARCH_RADIUS_NM
        * 1_000_000
}

pub fn is_in_cone(ac: &NearbyAircraft, distance: i64) -> (r: bool)
    ensures
        r == in_cone(ac@, distance as int),
{
    if ac.lat.is_none() || ac.lon.is_none() {
        return false;
    }
    match ac.alt_baro {
        Some(AltBaro::Feet(ft)) => ft > 0 && distance as i128 * UP_CONE_REFERENCE_ALT_FT as i128
            <= ft as i128 * UP_SEARCH_RADIUS_NM as i128 * 1_000_000,
        _ => false,
    }
}

/// An aircraft whose route is looked up: its position in the list, and its callsign.
#[derive(Debug, Clone)]
pub struct Candidate {
    pub index: usize,
    pub callsign: String,
}

/// Whether an aircraft is a candidate: in sight, and with a callsign.
pub open spec fn is_candidate(ac: Aircraft, distance: int) -> bool {
    in_cone(ac, distance) && flight_tracker::reported_callsign(ac) is Some
}

/// The positions of the candidates, in order.
pub open spec fn candidates(list: Seq<Aircraft>, distances: Seq<i64>) -> Seq<int>
    decreases list.len(),
{
    if list.len() == 0 {
        Seq::empty()
    } else {
        let rest = candidates(list.drop_last(), distances);
        let n = list.len() - 1;
        if is_candidate(list[n], distances[n] as int) {
            rest.push(n)
        } else {
            rest
        }
    }
}

pub open spec fn aircraft_list(v: Seq<NearbyAircraft>) -> Seq<Aircraft> {
    Seq::new(v.len(), |i: int| v[i]@)
}

proof fn lemma_candidates_len(list: Seq<Aircraft>, distances: Seq<i64>, n: int)
    requires
        0 <= n <= list.len(),
    ensures
        candidates(list.take(n), distances).len() <= candidates(list, distances).len(),
        forall|i: int|
            0 <= i < candidates(list.take(n), distances).len() ==> candidates(
                list.take(n),
                distances,
            )[i] == #[trigger] candidates(list, distances)[i],
    decreases list.len() - n,
{
    if n < list.len() {
        lemma_candidates_len(list, distances, n + 1);
        assert(list.take(n + 1).drop_last() =~= list.take(n));
        let a = candidates(list.take(n), distances);
        let b = candidates(list.take(n + 1), distances);
        assert forall|i: int| 0 <= i < a.len() implies a[i] == #[trigger] candidates(
            list,
            distances,
        )[i] by {
            assert(b[i] == a[i]);
        }
    } else {
        assert(list.take(n) =~= list);
    }
}

/// Selects the aircraft whose routes are looked up: the first ones that are in sight and
/// report a callsign. `distances` holds the distance of each aircraft.
pub fn select_candidates(list: &Vec<NearbyAircraft>, distances: &Vec<i64>) -> (r: Vec<Candidate>)
    requires
        list@.len() == distances@.len(),
    ensures
        ({
            let all = candidates(aircraft_list(list@), distances@);
            &&& r@.len() == if all.len() < UP_MAX_CANDIDATES {
                all.len()
            } else {
                UP_MAX_CANDIDATES as nat
            }
            &&& forall|i: int|
                0 <= i < r@.len() ==> {
                    &&& (#[trigger] r@[i]).index == all[i]
                    &&& r@[i].index < list@.len()
                    &&& Some(r@[i].callsign@) == flight_tracker::reported_callsign(
                        list@[all[i]]@,
                    )
                }
        }),
{
    let ghost acs = aircraft_list(list@);
    let ghost all = candidates(acs, distances@);
    let mut out: Vec<Candidate> = Vec::new();
    let mut i: usize = 0;
    assert(acs.take(0) =~= Seq::<Aircraft>::empty());
    while i < list.len() && out.len() < UP_MAX_CANDIDATES
        invariant
            acs == aircraft_list(list@),
            all == candidates(acs, distances@),
            list@.len() == distances@.len(),
            i <= list@.len(),
            out@.len() <= UP_MAX_CANDIDATES,
            out@.len() == candidates(acs.take(i as int), distances@).len(),
            forall|j: int|
                0 <= j < out@.len() ==> {
                    &&& (#[trigger] out@[j]).index == candidates(
                        acs.take(i as int),
                        distances@,
                    )[j]
                    &&& out@[j].index < list@.len()
                    &&& Some(out@[j].callsign@) == flight_tracker::reported_callsign(
                        list@[out@[j].index as int]@,
                    )
                },
        decreases list@.len() - i,
    {
        proof {
            assert(acs.take(i + 1).drop_last() =~= acs.take(i as int));
            assert(acs.take(i + 1)[i as int] == list@[i as int]@);
        }
        if is_in_cone(&list[i], distances[i]) {
            if let Some(callsign) = flight_tracker::callsign_of(&list[i]) {
                out.push(Candidate { index: i, callsign });
            }
        }
        i = i + 1;
    }
    proof {
        lemma_candidates_len(acs, distances@, i as int);
        if i == list@.len() {
            assert(acs.take(i as int) =~= acs);
        }
        assert forall|j: int| 0 <= j < out@.len() implies (#[trigger] out@[j]).index == all[j] by {
            assert(candidates(acs.take(i as int), distances@)[j] == all[j]);
        }
    }
    out
}

/// The arrow for a compass direction.
pub open spec fn arrow_of(direction: Seq<char>) -> Seq<char> {
    if direction == "N"@ {
        "↑"@
    } else if direction == "NE"@ {
        "↗"@
    } else if direction == "E"@ {
        "→"@
    } else if direction == "SE"@ {
        "↘"@
    } else if direction == "S"@ {
        "↓"@
    } else if direction == "SW"@ {
        "↙"@
    } else if direction == "W"@ {
        "←"@
    } else if direction == "NW"@ {
        "↖"@
    } else {
        "?"@
    }
}

pub fn arrow(direction: &str) -> (r: &'static str)
    ensures
        r@ == arrow_of(direction@),
{
    if text::same(direction, "N") {
        "↑"
    } else if text::same(direction, "NE") {
        "↗"
    } else if text::same(direction, "E") {
        "→"
    } else if text::same(direction, "SE") {
        "↘"
    } else if text::same(direction, "S") {
        "↓"
    } else if text::same(direction, "SW") {
        "↙"
    } else if text::same(direction, "W") {
        "←"
    } else if text::same(direction, "NW") {
        "↖"
    } else {
        "?"
    }
}

/// An altitude as flight level from 1000 feet on, in feet below, or as on the ground.
pub open spec fn altitude_text(alt: Option<AltBaro>) -> Seq<char> {
    match alt {
        Some(AltBaro::Feet(ft)) => if ft >= 1000 {
            "FL"@ + text::decimal((ft / 100) as nat)
        } else {
            text::signed_decimal(ft as int) + "ft"@
        },
        Some(AltBaro::Ground) => "GND"@,
        None => "?"@,
    }
}

pub fn format_altitude(alt: &Option<AltBaro>) -> (r: String)
    ensures
        r@ == altitude_text(*alt),
{
    match alt {
        Some(AltBaro::Feet(ft)) => {
            if *ft >= 1000 {
                let mut s = "FL".to_owned();
                let level: i64 = *ft / 100;
                let d = text::from_u64(level as u64);
                s.push_str(d.as_str());
                s
            } else {
                let mut s = text::from_i64(*ft);
                s.push_str("ft");
                s
            }
        },
        Some(AltBaro::Ground) => "GND".to_owned(),
        None => "?".to_owned(),
    }
}

/// A number of millionths, rounded to tenths; a half goes to the even tenth.
pub open spec fn tenths(millionths: nat) -> nat {
    let q = millionths / 100_000;
    let r = millionths % 100_000;
    if r > 50_000 || (r == 50_000 && q % 2 == 1) {
        q + 1
    } else {
        q
    }
}

/// A number of millionths with one decimal.
pub open spec fn one_decimal(millionths: nat) -> Seq<char> {
    let t = tenths(millionths);
    text::decimal(t / 10) + "."@ + text::decimal(t % 10)
}

pub fn format_one_decimal(millionths: u64) -> (r: String)
    ensures
        r@ == one_decimal(millionths as nat),
{
    let q: u64 = millionths / 100_000;
    let rest: u64 = millionths % 100_000;
    let t: u64 = if rest > 50_000 || (rest == 50_000 && q % 2 == 1) {
        q + 1
    } else {
        q
    };
    let mut s = text::from_u64(t / 10);
    s.push_str(".");
    let d = text::from_u64(t % 10);
    s.push_str(d.as_str());
    s
}

/// An aircraft overhead with its route. The distance is in millionths of a nautical mile.
#[derive(Debug, Clone)]
pub struct Overhead {
    pub callsign: String,
    pub icao_type: Option<String>,
    pub alt: Option<AltBaro>,
    pub origin: String,
    pub destination: String,
    pub distance: u64,
    pub direction: String,
}

pub open spec fn overhead_text(o: Overhead) -> Seq<char> {
    o.callsign@ + " ("@ + (match o.icao_type {
        Some(t) => t@,
        None => "?"@,
    }) + ") "@ + o.origin@ + "→"@ + o.destination@ + " "@ + altitude_text(o.alt) + " "@
        + one_decimal(o.distance as nat) + "nm "@ + arrow_of(o.direction@)
}

fn format_overhead(o: &Overhead) -> (r: String)
    ensures
        r@ == overhead_text(*o),
{
    let mut s = o.callsign.clone();
    s.push_str(" (");
    match &o.icao_type {
        Some(t) => s.push_str(t.as_str()),
        None => s.push_str("?"),
    }
    s.push_str(") ");
    s.push_str(o.origin.as_str());
    s.push_str("→");
    s.push_str(o.destination.as_str());
    s.push_str(" ");
    let alt = format_altitude(&o.alt);
    s.push_str(alt.as_str());
    s.push_str(" ");
    let d = format_one_decimal(o.distance);
    s.push_str(d.as_str());
    s.push_str("nm ");
    s.push_str(arrow(o.direction.as_str()));
    s
}

/// The reply about what flies over a place: the number of aircraft, and the first few.
pub open spec fn up_text(list: Seq<Overhead>, place: Seq<char>) -> Seq<char> {
    if list.len() == 0 {
        "Nix los über "@ + place
    } else {
        let shown = if list.len() < UP_MAX_RESULTS {
            list.len()
        } else {
            UP_MAX_RESULTS as nat
        };
        util::truncated(
            "✈ "@ + text::decimal(list.len()) + " Flieger über "@ + place + ": "@ + text::join(
                Seq::new(shown, |i: int| overhead_text(list[i])),
                " | "@,
            ),
            util::MAX_RESPONSE_LENGTH as nat,
        )
    }
}

/// The reply about what flies over a place.
pub fn up_reply(list: &Vec<Overhead>, place: &str) -> (r: String)
    ensures
        r@ == up_text(list@, place@),
{
    if list.len() == 0 {
        let mut s = "Nix los über ".to_owned();
        s.push_str(place);
        return s;
    }
    let mut parts: Vec<String> = Vec::new();
    let mut i: usize = 0;
    while i < list.len() && i < UP_MAX_RESULTS
        invariant
            i <= list@.len(),
            i <= UP_MAX_RESULTS,
            parts@.len() == i,
            forall|j: int| 0 <= j < i ==> (#[trigger] parts@[j])@ == overhead_text(list@[j]),
        decreases list@.len() - i,
    {
        parts.push(format_overhead(&list[i]));
        i = i + 1;
    }
    let mut msg = "✈ ".to_owned();
    let n = text::from_usize(list.len());
    msg.push_str(n.as_str());
    msg.push_str(" Flieger über ");
    msg.push_str(place);
    msg.push_str(": ");
    let joined = text::joined(&parts, " | ");
    msg.push_str(joined.as_str());
    assert(text::views(parts@) =~= Seq::new(i as nat, |k: int| overhead_text(list@[k])));
    util::truncate_response(msg.as_str(), util::MAX_RESPONSE_LENGTH)
}

/// Why a request for what flies overhead came to nothing.
#[derive(Debug, Clone, Copy, PartialEq, Eq, Structural)]
pub enum UpFailure {
    PlzNotFound,
    NotFound,
    Failed,
}

pub open spec fn up_failure_text(f: UpFailure) -> Seq<char> {
    match f {
        UpFailure::PlzNotFound => "Kenne ich nicht die PLZ FDM"@,
        UpFailure::NotFound => "Kenne ich nicht FDM"@,
        UpFailure::Failed => "Da ist was schiefgelaufen FDM"@,
    }
}

/// The reply where a request came to nothing.
pub fn up_failure(f: UpFailure) -> (r: &'static str)
    ensures
        r@ == up_failure_text(f),
{
    match f {
        UpFailure::PlzNotFound => "Kenne ich nicht die PLZ FDM",
        UpFailure::NotFound => "Kenne ich nicht FDM",
        UpFailure::Failed => "Da ist was schiefgelaufen FDM",
    }
}

/// The higher an aircraft flies, the farther off it is still in sight.
pub proof fn law_cone_grows_with_altitude(a: Aircraft, b: Aircraft, distance: int)
    requires
        in_cone(a, distance),
        b.lat is Some,
        b.lon is Some,
        airborne_feet(b) is Some,
        airborne_feet(a)->0 <= airborne_feet(b)->0,
    ensures
        in_cone(b, distance),
{
}

/// Nothing beyond the search radius is in sight below the reference altitude.
pub proof fn law_cone_within_radius(ac: Aircraft, distance: int)
    requires
        in_cone(ac, distance),
        airborne_feet(ac)->0 <= UP_CONE_REFERENCE_ALT_FT,
    ensures
        distance <= UP_SEARCH_RADIUS_NM * 1_000_000,
{
}

// ---------------------------------------------------------------------------
// Random flights
// ---------------------------------------------------------------------------

/// The reply to a request for a random flight that cannot be read.
pub const FLIGHT_USAGE: &'static str = "Gib mir nen Flugzeug und ne Zeit, z.B. !fl A20N 1h FDM";

pub const UNKNOWN_AIRCRAFT: &'static str = "Das Flugzeug kenn ich nich FDM";

pub const NO_ROUTE: &'static str = "Hab keine Route gefunden, versuch mal ne andere Zeit FDM";

/// The command that plans a random flight.
#[derive(Debug, Clone, Copy, PartialEq, Eq, Structural)]
pub struct RandomFlightCommand;

/// How a request for a random flight goes on: with a reply, or with a flight to plan for
/// an aircraft type and a time.
#[derive(Debug, Clone)]
pub enum FlightRequest {
    Reply(&'static str),
    Plan { aircraft: String, duration: time::Duration },
}

/// The aircraft type and the time, in nanoseconds, of a request for a random flight, or the
/// reply.
pub open spec fn flight_request(
    aircraft: Option<Seq<char>>,
    known: bool,
    duration: Option<Seq<char>>,
) -> Result<(Seq<char>, int), Seq<char>> {
    if aircraft is None || duration is None {
        Err(FLIGHT_USAGE@)
    } else if !known {
        Err(UNKNOWN_AIRCRAFT@)
    } else {
        match util::flight_secs(duration->0) {
            Some(secs) => Ok((aircraft->0, (secs * 1_000_000_000) as int)),
            None => Err(FLIGHT_USAGE@),
        }
    }
}

/// Reads a request for a random flight: an aircraft type and a flight time. Which types
/// are known comes from outside.
pub fn read_flight_request(
    aircraft: Option<&str>,
    aircraft_known: bool,
    duration: Option<&str>,
) -> (r: FlightRequest)
    ensures
        match r {
            FlightRequest::Reply(s) => {
                ||| (aircraft is None || duration is None) && s@ == FLIGHT_USAGE@
                ||| aircraft is Some && duration is Some && !aircraft_known && s@
                    == UNKNOWN_AIRCRAFT@
                ||| aircraft is Some && duration is Some && aircraft_known && util::flight_secs(
                    duration->0@,
                ) is None && s@ == FLIGHT_USAGE@
            },
            FlightRequest::Plan { aircraft: a, duration: d } => {
                &&& aircraft is Some && duration is Some && aircraft_known
                &&& a@ == aircraft->0@
                &&& util::flight_secs(duration->0@) matches Some(secs) && d@ == secs
                    * 1_000_000_000
            },
        },
        match r {
            FlightRequest::Reply(s) => flight_request(
                text::opt_str_view(aircraft),
                aircraft_known,
                text::opt_str_view(duration),
            ) == Err::<(Seq<char>, int), Seq<char>>(s@),
            FlightRequest::Plan { aircraft: a, duration: d } => flight_request(
                text::opt_str_view(aircraft),
                aircraft_known,
                text::opt_str_view(duration),
            ) == Ok::<(Seq<char>, int), Seq<char>>((a@, d@)),
        },
{
    match (aircraft, duration) {
        (Some(a), Some(d)) => {
            if !aircraft_known {
                return FlightRequest::Reply(UNKNOWN_AIRCRAFT);
            }
            match util::parse_flight_duration(d) {
                Some(duration) => FlightRequest::Plan { aircraft: a.to_owned(), duration },
                None => FlightRequest::Reply(FLIGHT_USAGE),
            }
        },
        _ => FlightRequest::Reply(FLIGHT_USAGE),
    }
}

/// A planned flight. The distance is in thousandths of a nautical mile.
#[derive(Debug, Clone)]
pub struct FlightPlan {
    pub departure: String,
    pub arrival: String,
    pub distance_nm: i64,
    pub block_time: time::Duration,
    pub cruise_altitude_ft: u32,
    pub url: String,
}

pub open spec fn plan_text(p: FlightPlan) -> Seq<char> {
    p.departure@ + " -> "@ + p.arrival@ + " | "@ + flight_tracker::rounded_text(
        p.distance_nm as int,
    ) + " nm | "@ + flight_tracker::duration_text(p.block_time@) + " | FL"@ + text::decimal(
        (p.cruise_altitude_ft / 100) as nat,
    ) + " | "@ + p.url@
}

/// Formats a block time as `1h05m`, or `5m` below one hour.
fn format_block_time(d: time::Duration) -> (r: String)
    ensures
        r@ == flight_tracker::duration_text(d@),
{
    let secs: u128 = d.nanos / 1_000_000_000;
    let hours: u128 = secs / 3600;
    let mins: u128 = (secs / 60) % 60;
    if hours > 0 {
        let mut s = text::from_u128(hours);
        s.push_str("h");
        let m = text::from_two_digits(mins as u64);
        s.push_str(m.as_str());
        s.push_str("m");
        s
    } else {
        let mut s = text::from_u128(mins);
        s.push_str("m");
        s
    }
}

/// The reply with a planned flight.
pub fn plan_reply(p: &FlightPlan) -> (r: String)
    ensures
        r@ == plan_text(*p),
{
    let mut s = p.departure.clone();
    s.push_str(" -> ");
    s.push_str(p.arrival.as_str());
    s.push_str(" | ");
    let d = flight_tracker::format_rounded(p.distance_nm);
    s.push_str(d.as_str());
    s.push_str(" nm | ");
    let block = format_block_time(p.block_time);
    s.push_str(block.as_str());
    s.push_str(" | FL");
    let level = text::from_u64((p.cruise_altitude_ft / 100) as u64);
    s.push_str(level.as_str());
    s.push_str(" | ");
    s.push_str(p.url.as_str());
    s
}


// ---------------------------------------------------------------------------
// What places and aircraft are told as
// ---------------------------------------------------------------------------

/// The contents of a place are its latitude as latitude, its longitude as longitude and its
/// name.
pub proof fn law_places_are_themselves(p: Place)
    ensures
        p@.lat == p.lat,
        p@.lon == p.lon,
        p@.name == p.name@,
{
}

/// An airport that was entered is found under its code, in whatever case it is asked for,
/// with the latitude, the longitude and the name that were entered: under three letters as
/// IATA code and under four as ICAO code. Other codes are found as before.
pub proof fn law_entered_airports_are_found(
    input: Seq<char>,
    plz: Map<Seq<char>, (i64, i64)>,
    icao: Map<Seq<char>, Spot>,
    iata: Map<Seq<char>, Spot>,
    icao_code: Seq<char>,
    iata_code: Seq<char>,
    name: Seq<char>,
    lat: i64,
    lon: i64,
)
    requires
        text::upper_known(input),
        all_letters(input),
    ensures
        ({
            let found = located(
                input,
                text::unicode_upper(input),
                plz,
                entered(icao, icao_code, 4, name, lat, lon),
                entered(iata, iata_code, 3, name, lat, lon),
            );
            &&& input.len() == 3 && text::upper(input) == iata_code || input.len() == 4
                && text::upper(input) == icao_code ==> (found matches Whereabouts::Found(spot)
                && spot.lat == lat && spot.lon == lon && spot.name == name)
            &&& text::upper(input) != iata_code && text::upper(input) != icao_code ==> found
                == located(input, text::unicode_upper(input), plz, icao, iata)
        }),
        input.len() == 3 && text::upper(input) == iata_code ==> coordinates(
            entered(iata, iata_code, 3, name, lat, lon),
            iata_code,
        ) == Some((lat, lon)),
{
    let up = text::upper(input);
    assert forall|i: int| 0 <= i < input.len() implies (#[trigger] input[i]) as int <= 0x7f by {
        assert(text::is_letter(input[i]));
    }
    assert(text::all_ascii(input));
    assert(text::unicode_upper(input) == up);
    assert(!is_plz(input)) by {
        if is_plz(input) {
            assert(text::is_digit(input[0]));
        }
    }
    assert(vstd::utf8::is_ascii_chars(up)) by {
        assert forall|i: int| 0 <= i < up.len() implies (#[trigger] up[i]) as int <= 0x7f by {
            assert(text::is_letter(input[i]));
        }
    }
    vstd::utf8::is_ascii_chars_encode_utf8(up);
    assert(up.len() == input.len());
}

/// What is found by a code has the latitude, the longitude and the name that the table has
/// for the code; a postal code has its coordinates and is named after itself.
pub proof fn law_found_is_what_the_table_has(
    input: Seq<char>,
    upper: Seq<char>,
    plz: Map<Seq<char>, (i64, i64)>,
    icao: Map<Seq<char>, Spot>,
    iata: Map<Seq<char>, Spot>,
)
    ensures
        ({
            let r = located(input, upper, plz, icao, iata);
            let digits = input.len() == 5 && forall|i: int|
                0 <= i < input.len() ==> '0' <= #[trigger] input[i] <= '9';
            &&& digits && plz.contains_key(input) ==> (r matches Whereabouts::Found(s) && s.lat
                == plz[input].0 && s.lon == plz[input].1 && s.name == input)
            &&& digits && !plz.contains_key(input) ==> r is PlzNotFound
            &&& !digits ==> !(r is PlzNotFound)
            &&& input.len() == 4 && all_letters(input) && icao.contains_key(upper) ==> (
            r matches Whereabouts::Found(s) && s.lat == icao[upper].lat && s.lon == icao[upper].lon
                && s.name == icao[upper].name)
            &&& input.len() == 3 && all_letters(input) && iata.contains_key(upper) ==> (
            r matches Whereabouts::Found(s) && s.lat == iata[upper].lat && s.lon == iata[upper].lon
                && s.name == iata[upper].name)
            &&& !digits && !(input.len() == 4 && icao.contains_key(upper)) && !(input.len() == 3
                && iata.contains_key(upper)) ==> r is Geocode
        }),
{
    if is_plz(input) {
        assert forall|i: int| 0 <= i < input.len() implies '0' <= #[trigger] input[i] <= '9' by {
            assert(text::is_digit(input[i]));
        }
    }
    if input.len() == 5 && forall|i: int|
        0 <= i < input.len() ==> '0' <= #[trigger] input[i] <= '9' {
        assert forall|i: int| 0 <= i < input.len() implies text::is_digit(
            #[trigger] input[i],
        ) by {
            assert('0' <= input[i] <= '9');
        }
    }
}

/// The fields of a record are, in their order, the ICAO code, the IATA code, the name, the
/// latitude and the longitude.
pub proof fn law_airport_records_are_read(f: Seq<Seq<char>>)
    ensures
        f.len() < 5 ==> airport_of(Some(f)) is None,
        f.len() >= 5 ==> (airport_of(Some(f)) matches Some(a) && a.icao == text::trim(f[0])
            && a.iata == text::trim(f[1]) && a.name == text::trim(f[2]) && a.lat == text::trim(f[3])
            && a.lon == text::trim(f[4])),
        airport_of(None) is None,
{
}

/// A flight number of an airline in the table becomes its ICAO code with the number; what is
/// no flight number stays, and an airline that is not in the table is looked up.
pub proof fn law_flight_numbers_become_callsigns(
    airline: Seq<char>,
    number: Seq<char>,
    table: Map<Seq<char>, Seq<char>>,
    icao: Seq<char>,
)
    requires
        airline.len() == 2,
        'A' <= airline[0] <= 'Z',
        'A' <= airline[1] <= 'Z',
        1 <= number.len() <= 4,
        forall|i: int| 0 <= i < number.len() ==> '0' <= #[trigger] number[i] <= '9',
    ensures
        table.contains_key(airline) ==> callsign_for(airline + number, table) == Ok::<
            Seq<char>,
            Seq<char>,
        >(table[airline] + number),
        !table.contains_key(airline) ==> callsign_for(airline + number, table) == Err::<
            Seq<char>,
            Seq<char>,
        >(airline),
        with_airline(airline + number, Some(icao)) == icao + number,
        with_airline(airline + number, None) == airline + number,
{
    let s = airline + number;
    assert(s.take(2) =~= airline);
    assert(s.skip(2) =~= number);
    assert(is_flight_number(s)) by {
        assert forall|i: int| 0 <= i < s.skip(2).len() implies text::is_digit(
            #[trigger] s.skip(2)[i],
        ) by {
            assert('0' <= number[i] <= '9');
        }
    }
}

/// What does not begin with two capital letters, or goes on with anything but digits, is no
/// flight number and stays as it is.
pub proof fn law_callsigns_stay(input: Seq<char>, table: Map<Seq<char>, Seq<char>>, i: int)
    requires
        input.len() < 3 || input.len() > 6 || !('A' <= input[0] <= 'Z') || !('A' <= input[1] <= 'Z')
            || (2 <= i < input.len() && !('0' <= input[i] <= '9')),
    ensures
        callsign_for(input, table) == Ok::<Seq<char>, Seq<char>>(input),
{
    if is_flight_number(input) {
        if 2 <= i < input.len() {
            assert(input.skip(2)[i - 2] == input[i]);
            assert(text::is_digit(input.skip(2)[i - 2]));
        }
    }
}

/// A line of the table of airlines gives an ICAO code for an IATA code, and replaces an
/// earlier one; other lines change nothing.
pub proof fn law_airlines_are_read(lines: Seq<Seq<char>>, line: Seq<char>)
    ensures
        airline_entry(line) matches Some(e) ==> airlines(lines.push(line)) == airlines(
            lines,
        ).insert(e.0, e.1),
        airline_entry(line) is None ==> airlines(lines.push(line)) == airlines(lines),
        airline_entry(line) matches Some(e) ==> text::byte_len(e.0) == 2 && text::byte_len(e.1) == 3
            && (text::cut(line, ',') matches Some(c) && e.0 == text::trim(c.0) && e.1 == text::trim(
            c.1,
        )),
{
    assert(lines.push(line).drop_last() =~= lines);
}

/// A request leads to a lookup just where it names a place and the user has waited, or has
/// not asked yet.
pub proof fn law_users_wait_their_turn(
    last: Map<Seq<char>, int>,
    user: Seq<char>,
    input: Seq<char>,
    wait: int,
    now: int,
)
    ensures
        text::trim(input).len() == 0 ==> !is_looked_up(last, user, input, wait, now),
        text::trim(input).len() > 0 && !last.contains_key(user) ==> is_looked_up(
            last,
            user,
            input,
            wait,
            now,
        ),
        text::trim(input).len() > 0 && last.contains_key(user) && now >= last[user] ==> (
        is_looked_up(last, user, input, wait, now) <==> now - last[user] >= wait),
{
}

/// An aircraft is in sight where its position and its altitude are known, it is off the
/// ground, and it is no farther than 15 nautical miles for each 35000 feet.
pub proof fn law_sight_is_a_cone(ac: Aircraft, distance: int)
    ensures
        in_cone(ac, distance) <==> ac.lat is Some && ac.lon is Some && (
        ac.alt_baro matches Some(AltBaro::Feet(ft)) && ft > 0 && 35_000 * distance <= 15_000_000
            * ft),
{
}

/// The aircraft whose routes are looked up are all those in sight with a callsign, each once
/// and in the order of the list.
pub proof fn law_candidates_are_those_in_sight(list: Seq<Aircraft>, distances: Seq<i64>)
    ensures
        ({
            let c = candidates(list, distances);
            &&& forall|k: int| 0 <= k < c.len() ==> 0 <= #[trigger] c[k] < list.len()
            &&& forall|k: int|
                0 <= k < c.len() ==> in_cone(list[#[trigger] c[k]], distances[c[k]] as int)
                    && flight_tracker::reported_callsign(list[c[k]]) is Some
            &&& forall|j: int, k: int| 0 <= j < k < c.len() ==> #[trigger] c[j] < #[trigger] c[k]
            &&& forall|i: int|
                0 <= i < list.len() && in_cone(#[trigger] list[i], distances[i] as int)
                    && flight_tracker::reported_callsign(list[i]) is Some ==> c.contains(i)
        }),
    decreases list.len(),
{
    if list.len() > 0 {
        let rest = list.drop_last();
        law_candidates_are_those_in_sight(rest, distances);
        let c = candidates(list, distances);
        let d = candidates(rest, distances);
        let n = list.len() - 1;
        assert forall|k: int| 0 <= k < c.len() implies 0 <= #[trigger] c[k] < list.len()
            && in_cone(list[c[k]], distances[c[k]] as int) && flight_tracker::reported_callsign(
            list[c[k]],
        ) is Some by {
            if k < d.len() {
                assert(c[k] == d[k]);
                assert(rest[d[k]] == list[d[k]]);
            }
        }
        assert forall|i: int|
            0 <= i < list.len() && in_cone(#[trigger] list[i], distances[i] as int)
                && flight_tracker::reported_callsign(list[i]) is Some implies c.contains(i) by {
            if i < n {
                assert(rest[i] == list[i]);
                assert(d.contains(i));
                let k = d.index_of(i);
                assert(c[k] == i);
            } else {
                assert(c[c.len() - 1] == i);
            }
        }
        assert forall|j: int, k: int| 0 <= j < k < c.len() implies #[trigger] c[j]
            < #[trigger] c[k] by {
            if k < d.len() {
                assert(d[j] < d[k]);
            } else {
                assert(c[j] == d[j]);
            }
        }
    }
}

/// An altitude from 1000 feet on is told as a flight level of hundreds of feet, a smaller one
/// in feet.
pub proof fn law_altitudes_are_told(ft: i64)
    ensures
        ft >= 1000 ==> altitude_text(Some(AltBaro::Feet(ft))) == "FL"@ + text::decimal(
            (ft / 100) as nat,
        ) && flight_tracker::alt_text(Some(ft)) == "FL"@ + text::decimal((ft / 100) as nat),
        ft < 1000 ==> altitude_text(Some(AltBaro::Feet(ft))) == text::signed_decimal(ft as int)
            + "ft"@ && flight_tracker::alt_text(Some(ft)) == text::signed_decimal(ft as int)
            + "ft"@,
        altitude_text(Some(AltBaro::Ground)) == "GND"@,
        altitude_text(None) == "?"@,
        flight_tracker::alt_text(None) == "?"@,
{
}

/// Distances are told in tenths, to the nearest one.
pub proof fn law_distances_are_rounded(millionths: nat)
    ensures
        -50_000 <= 100_000 * tenths(millionths) - millionths <= 50_000,
        one_decimal(millionths) == text::decimal(tenths(millionths) / 10) + "."@ + text::decimal(
            tenths(millionths) % 10,
        ),
{
}

/// Each of the eight directions has an arrow of its own, which points there.
pub proof fn law_arrows_point_there()
    ensures
        arrow_of("N"@) == "↑"@,
        arrow_of("NE"@) == "↗"@,
        arrow_of("E"@) == "→"@,
        arrow_of("SE"@) == "↘"@,
        arrow_of("S"@) == "↓"@,
        arrow_of("SW"@) == "↙"@,
        arrow_of("W"@) == "←"@,
        arrow_of("NW"@) == "↖"@,
{
    reveal_strlit("N");
    reveal_strlit("NE");
    reveal_strlit("E");
    reveal_strlit("SE");
    reveal_strlit("S");
    reveal_strlit("SW");
    reveal_strlit("W");
    reveal_strlit("NW");
    assert("N"@.len() == 1 && "E"@.len() == 1 && "S"@.len() == 1 && "W"@.len() == 1);
    assert("N"@[0] == 'N' && "E"@[0] == 'E' && "S"@[0] == 'S' && "W"@[0] == 'W');
    assert("NE"@.len() == 2 && "SE"@.len() == 2 && "SW"@.len() == 2 && "NW"@.len() == 2);
    assert("NE"@[0] == 'N' && "NE"@[1] == 'E');
    assert("SE"@[0] == 'S' && "SE"@[1] == 'E');
    assert("SW"@[0] == 'S' && "SW"@[1] == 'W');
    assert("NW"@[0] == 'N' && "NW"@[1] == 'W');
}

/// An aircraft overhead is told with its callsign, its type, where it comes from and goes to,
/// its altitude, its distance and the direction.
pub proof fn law_aircraft_overhead_is_told(o: Overhead)
    ensures
        text::has_prefix(overhead_text(o), o.callsign@),
        o.icao_type matches Some(t) ==> text::has(overhead_text(o), t@),
        text::has(overhead_text(o), o.origin@ + "→"@ + o.destination@),
        text::has(overhead_text(o), altitude_text(o.alt)),
        text::has(overhead_text(o), one_decimal(o.distance as nat)),
        text::has_suffix(overhead_text(o), arrow_of(o.direction@)),
{
    broadcast use text::group_parts;

    let t = match o.icao_type {
        Some(t) => t@,
        None => "?"@,
    };
    let head = o.callsign@ + " ("@ + t + ") "@;
    let route = o.origin@ + "→"@ + o.destination@;
    assert(head + o.origin@ + "→"@ + o.destination@ =~= head + route);
    assert(text::has(head + route, route));
}

/// The reply about what flies over a place tells how many aircraft there are, the place, and
/// the first five of them; it is cut where it is too long. Where there are none, it names
/// the place.
pub proof fn law_sky_is_told(list: Seq<Overhead>, place: Seq<char>)
    ensures
        list.len() == 0 ==> text::has_suffix(up_text(list, place), place),
        list.len() > 0 ==> exists|whole: Seq<char>|
            {
                &&& up_text(list, place) == #[trigger] util::truncated(whole, 500)
                &&& text::has(whole, text::decimal(list.len()))
                &&& text::has(whole, place)
                &&& forall|i: int|
                    0 <= i < list.len() && i < 5 ==> text::has(
                        whole,
                        overhead_text(#[trigger] list[i]),
                    )
                &&& list.len() >= 5 ==> text::has_suffix(whole, overhead_text(list[4]))
                &&& list.len() < 5 ==> text::has_suffix(whole, overhead_text(list.last()))
            },
        up_text(list, place).len() <= 500 || list.len() == 0,
{
    broadcast use text::group_parts;

    if list.len() > 0 {
        let shown = if list.len() < 5 {
            list.len()
        } else {
            5
        };
        let parts = Seq::new(shown, |i: int| overhead_text(list[i]));
        let whole = "✈ "@ + text::decimal(list.len()) + " Flieger über "@ + place + ": "@
            + text::join(parts, " | "@);
        assert(up_text(list, place) == util::truncated(whole, 500));
        util::law_truncated_is_short(whole, 500);
        assert forall|i: int| 0 <= i < list.len() && i < 5 implies text::has(
            whole,
            overhead_text(#[trigger] list[i]),
        ) by {
            text::law_joined_holds_each(parts, " | "@, i);
            assert(parts[i] == overhead_text(list[i]));
        }
        assert(text::has_suffix(text::join(parts, " | "@), parts.last()));
    }
}

/// A random flight is planned for the type and the time that a user gives, where both can be
/// read; otherwise the user is told what is missing.
pub proof fn law_flight_requests_are_read(aircraft: Seq<char>, known: bool, duration: Seq<char>)
    ensures
        flight_request(None, known, Some(duration)) is Err,
        flight_request(Some(aircraft), known, None) is Err,
        !known ==> flight_request(Some(aircraft), known, Some(duration)) == Err::<
            (Seq<char>, int),
            Seq<char>,
        >("Das Flugzeug kenn ich nich FDM"@),
        known ==> match util::flight_secs(duration) {
            Some(secs) => flight_request(Some(aircraft), known, Some(duration)) == Ok::<
                (Seq<char>, int),
                Seq<char>,
            >((aircraft, (secs * 1_000_000_000) as int)),
            None => flight_request(Some(aircraft), known, Some(duration)) is Err,
        },
{
}

/// A planned flight is told from where it goes to where, then how far, how long and how high,
/// and last with its address.
pub proof fn law_planned_flight_is_told(p: FlightPlan)
    ensures
        text::has_prefix(plan_text(p), p.departure@ + " -> "@ + p.arrival@),
        text::has(plan_text(p), flight_tracker::rounded_text(p.distance_nm as int) + " nm"@),
        text::has(plan_text(p), flight_tracker::duration_text(p.block_time@)),
        text::has(plan_text(p), text::decimal((p.cruise_altitude_ft / 100) as nat)),
        text::has_suffix(plan_text(p), p.url@),
{
    broadcast use text::group_parts;

    let head = p.departure@ + " -> "@ + p.arrival@ + " | "@;
    let d = flight_tracker::rounded_text(p.distance_nm as int);
    let rest = " | "@;
    reveal_strlit(" nm");
    reveal_strlit(" nm | ");
    reveal_strlit(" | ");
    assert(" nm | "@ =~= " nm"@ + " | "@);
    assert(head + d + " nm | "@ =~= head + (d + " nm"@) + rest);
    assert(text::has(head + d + " nm | "@, d + " nm"@));
}

/// A place that a geocoder gave is named by what stands before the first comma.
pub proof fn law_names_are_shortened(first: Seq<char>, rest: Seq<char>)
    requires
        !first.contains(','),
    ensures
        short_name(first) == text::trim(first),
        short_name(first + seq![','] + rest) == text::trim(first),
{
    text::law_first_part(first, ',', rest);
}


/// A line of the table of postal codes gives the code first, then the latitude and then the
/// longitude.
pub proof fn law_postal_codes_are_read(plz: Seq<char>, lat: Seq<char>, lon: Seq<char>)
    requires
        !plz.contains(','),
        !lat.contains(','),
    ensures
        plz_parts(plz + seq![','] + (lat + seq![','] + lon)) == Some((plz, lat, lon)),
        plz_parts(plz) is None,
        plz_parts(plz + seq![','] + lat) is None,
{
    text::law_first_part(plz, ',', lat + seq![','] + lon);
    text::law_first_part(plz, ',', lat);
    text::law_first_part(lat, ',', lon);
}

/// Each record of an airport gives one, in the order of the records; others give none.
pub proof fn law_airports_are_taken_in_order(
    records: Seq<Option<Seq<Seq<char>>>>,
    record: Option<Seq<Seq<char>>>,
)
    ensures
        airports_of(Seq::empty()) == Seq::<AirportLine>::empty(),
        airport_of(record) matches Some(a) ==> airports_of(records.push(record)) == airports_of(
            records,
        ).push(a),
        airport_of(record) is None ==> airports_of(records.push(record)) == airports_of(records),
{
    assert(records.push(record).drop_last() =~= records);
}

/// Only where a postal code is not known does the reply speak of one, and each failure has a
/// reply of its own.
pub proof fn law_failures_are_told_apart()
    ensures
        text::has(up_failure_text(UpFailure::PlzNotFound), "PLZ"@),
        text::has_prefix(up_failure_text(UpFailure::NotFound), "Kenne ich nicht"@),
        up_failure_text(UpFailure::PlzNotFound) != up_failure_text(UpFailure::NotFound),
        up_failure_text(UpFailure::Failed) != up_failure_text(UpFailure::NotFound),
        up_failure_text(UpFailure::Failed) != up_failure_text(UpFailure::PlzNotFound),
{
    reveal_strlit("Kenne ich nicht die PLZ FDM");
    reveal_strlit("Kenne ich nicht FDM");
    reveal_strlit("Da ist was schiefgelaufen FDM");
    reveal_strlit("PLZ");
    reveal_strlit("Kenne ich nicht");
    let s = "Kenne ich nicht die PLZ FDM"@;
    assert(s.subrange(20, 23) =~= "PLZ"@);
    assert(text::matches_at(s, "PLZ"@, 20));
    assert("Kenne ich nicht FDM"@.subrange(0, 15) =~= "Kenne ich nicht"@);
    assert(s.len() == 27);
    assert("Kenne ich nicht FDM"@.len() == 19);
    assert("Da ist was schiefgelaufen FDM"@.len() == 29);
}

} // verus!

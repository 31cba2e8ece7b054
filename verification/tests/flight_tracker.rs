use twitch_1337::aviation::{AltBaro, NearbyAircraft};
use twitch_1337::flight_tracker::{
    altitude_ft, callsign_of, compute_poll_interval, course_query, detect_phase,
    emergency_squawk_meaning, find_flight_index, format_alt, format_duration_hm, format_rounded,
    format_route, is_on_ground, msg_cruise, msg_flight_status, msg_flights_list, msg_landing,
    poll_query, vertical_rate, wanted_route, AircraftQuery, Bearings, FetchedRoute,
    FlightIdentifier, FlightPhase, FlightTrackerState, Lookup, PollResult, TrackStart,
    TrackedFlight,
};
use twitch_1337::time::{Duration, TimeDelta, Timestamp};

const NOW: i64 = 1_767_225_600;

fn at(secs: i64) -> Timestamp {
    Timestamp::new(secs, 0).unwrap()
}

fn aircraft(alt: i64, rate: i64, speed: i64) -> NearbyAircraft {
    NearbyAircraft {
        hex: Some("3C6444".to_string()),
        flight: Some("DLH123  ".to_string()),
        t: Some("A320".to_string()),
        alt_baro: Some(AltBaro::Feet(alt)),
        lat: Some(50_000_000),
        lon: Some(8_000_000),
        gs: Some(speed),
        baro_rate: Some(rate),
        geom_rate: None,
        squawk: Some("1000".to_string()),
        nav_modes: None,
    }
}

fn route() -> FetchedRoute {
    FetchedRoute {
        origin: "FRA".to_string(),
        destination: "MUC".to_string(),
        dest_coords: Some((48_353_000, 11_786_000)),
    }
}

fn follow(state: &mut FlightTrackerState, name: &str, by: &str, ac: NearbyAircraft) -> String {
    let id = FlightIdentifier::parse(name);
    state.finish_track(id, by, &Lookup::Found(ac), &None, &at(NOW)).reply
}

fn one_flight(phase: FlightPhase, polls: u32) -> TrackedFlight {
    let mut state = FlightTrackerState::new();
    follow(&mut state, "DLH123", "alice", aircraft(35_000, 0, 450_000));
    let mut f = state.flights.remove(0);
    f.phase = phase;
    f.polls_since_change = polls;
    f
}

#[test]
fn identifiers_are_told_apart() {
    assert_eq!(FlightIdentifier::parse(" 3c6444 "), FlightIdentifier::Hex("3C6444".to_string()));
    assert_eq!(FlightIdentifier::parse("dlh123"), FlightIdentifier::Callsign("DLH123".to_string()));
    assert_eq!(FlightIdentifier::parse("abcde"), FlightIdentifier::Callsign("ABCDE".to_string()));
    let hex = FlightIdentifier::parse("3c6444");
    assert!(hex.matches(None, Some("3c6444")));
    assert!(!hex.matches(Some("3c6444"), None));
    let cs = FlightIdentifier::parse("dlh1");
    assert!(cs.matches(Some("DLH1"), None));
    assert_eq!(cs.as_str(), "DLH1");
    assert_eq!(cs.to_text(), "DLH1");
}

#[test]
fn ground_and_rates() {
    let mut ac = aircraft(199, 0, 29_999);
    assert!(is_on_ground(&ac));
    ac.gs = Some(30_000);
    assert!(!is_on_ground(&ac));
    ac.alt_baro = Some(AltBaro::Ground);
    assert!(is_on_ground(&ac));
    assert_eq!(altitude_ft(&ac), Some(0));
    ac.alt_baro = None;
    assert!(!is_on_ground(&ac));
    assert_eq!(altitude_ft(&ac), None);
    ac.baro_rate = None;
    ac.geom_rate = Some(7);
    assert_eq!(vertical_rate(&ac), Some(7));
    assert_eq!(callsign_of(&ac).as_deref(), Some("DLH123"));
    ac.flight = Some("   ".to_string());
    assert_eq!(callsign_of(&ac), None);
}

#[test]
fn phases_are_detected() {
    let climbing = one_flight(FlightPhase::Climb, 0);
    let landed = NearbyAircraft { alt_baro: Some(AltBaro::Ground), ..aircraft(0, 0, 0) };
    assert_eq!(detect_phase(&climbing, &landed), FlightPhase::Landing);
    let ground = one_flight(FlightPhase::Ground, 0);
    assert_eq!(detect_phase(&ground, &landed), FlightPhase::Ground);
    assert_eq!(detect_phase(&ground, &aircraft(500, 100, 60_001)), FlightPhase::Takeoff);
    assert_eq!(detect_phase(&climbing, &aircraft(20_000, -501, 400_000)), FlightPhase::Descent);
    assert_eq!(detect_phase(&climbing, &aircraft(9_999, -501, 400_000)), FlightPhase::Approach);
    let approach = one_flight(FlightPhase::Approach, 0);
    assert_eq!(detect_phase(&approach, &aircraft(20_000, -501, 400_000)), FlightPhase::Approach);
    let mut with_mode = aircraft(20_000, -1, 400_000);
    with_mode.nav_modes = Some(vec!["autopilot".to_string(), "approach".to_string()]);
    assert_eq!(detect_phase(&climbing, &with_mode), FlightPhase::Approach);
    assert_eq!(
        detect_phase(&one_flight(FlightPhase::Climb, 2), &aircraft(10_001, 299, 400_000)),
        FlightPhase::Cruise
    );
    assert_eq!(
        detect_phase(&one_flight(FlightPhase::Climb, 1), &aircraft(10_001, 299, 400_000)),
        FlightPhase::Climb
    );
    assert_eq!(
        detect_phase(&one_flight(FlightPhase::Cruise, 9), &aircraft(20_000, 501, 400_000)),
        FlightPhase::Climb
    );
    assert_eq!(
        detect_phase(&one_flight(FlightPhase::Descent, 9), &aircraft(5_000, 400, 400_000)),
        FlightPhase::Descent
    );
}

#[test]
fn small_texts() {
    assert_eq!(emergency_squawk_meaning("7500"), Some("Hijack"));
    assert_eq!(emergency_squawk_meaning("7600"), Some("Radio Failure"));
    assert_eq!(emergency_squawk_meaning("7700"), Some("Emergency"));
    assert_eq!(emergency_squawk_meaning("7000"), None);
    assert_eq!(format_alt(Some(999)), "999ft");
    assert_eq!(format_alt(Some(1000)), "FL10");
    assert_eq!(format_alt(Some(-50)), "-50ft");
    assert_eq!(format_alt(None), "?");
    assert_eq!(format_route(&None), "");
    assert_eq!(format_route(&Some(("A".to_string(), "B".to_string()))), " A→B");
    assert_eq!(format_duration_hm(TimeDelta { nanos: 59 * 60_000_000_000 }), "59m");
    assert_eq!(format_duration_hm(TimeDelta { nanos: 3_900_000_000_000 }), "1h05m");
    assert_eq!(format_rounded(450_499), "450");
    assert_eq!(format_rounded(450_500), "450");
    assert_eq!(format_rounded(451_500), "452");
}

#[test]
fn messages() {
    let mut f = one_flight(FlightPhase::Cruise, 9);
    assert_eq!(msg_cruise(&f), "DLH123 (A320) cruist auf FL350");
    f.set_route(&route());
    assert_eq!(f.dest_lat, Some(48_353_000));
    assert_eq!(
        msg_landing(&f, &at(NOW + 3_900)),
        "DLH123 (A320) FRA→MUC ist gelandet! Flugzeit: 1h05m"
    );
    assert_eq!(
        msg_flight_status(&f, &at(NOW + 60)),
        "DLH123 (A320) FRA→MUC | Cruise FL350 | 450kts | Squawk 1000 | seit 1m getrackt"
    );
    assert_eq!(msg_flights_list(&vec![f]), "Getrackte Flüge: DLH123 (Cruise FL350)");
    assert_eq!(msg_flights_list(&vec![]), "Keine Flüge getrackt");
}

#[test]
fn tracking_starts() {
    let mut state = FlightTrackerState::new();
    let id = FlightIdentifier::parse("DLH123");
    match state.start_track(&id, "alice") {
        TrackStart::LookUp(AircraftQuery::ByCallsign(cs)) => assert_eq!(cs, "DLH123"),
        other => panic!("unexpected {other:?}"),
    }
    let out = state.finish_track(
        id,
        "alice",
        &Lookup::Found(aircraft(35_000, 0, 450_000)),
        &Some(route()),
        &at(NOW),
    );
    assert_eq!(out.reply, "Tracke DLH123 (A320) FRA→MUC Okayge");
    assert!(out.save);
    assert_eq!(state.flights.len(), 1);
    assert_eq!(state.flights[0].phase, FlightPhase::Unknown);

    // The same aircraft by its hex code is the same flight.
    match state.start_track(&FlightIdentifier::parse("3c6444"), "bob") {
        TrackStart::Reply(r) => assert_eq!(r, "3C6444 wird schon getrackt FDM"),
        other => panic!("unexpected {other:?}"),
    }
}

#[test]
fn tracking_fails() {
    let mut state = FlightTrackerState::new();
    let mut fail = |l: &Lookup| {
        state.finish_track(FlightIdentifier::parse("XY1"), "a", l, &None, &at(NOW)).reply
    };
    assert_eq!(fail(&Lookup::NotFound), "XY1 nicht gefunden auf adsb.lol FDM");
    assert_eq!(fail(&Lookup::Failed), "adsb.lol Anfrage fehlgeschlagen FDM");
    assert_eq!(fail(&Lookup::TimedOut), "adsb.lol Anfrage Timeout FDM");
    assert!(state.flights.is_empty());
}

#[test]
fn limits_hold() {
    let mut state = FlightTrackerState::new();
    for i in 0..3 {
        follow(&mut state, &format!("AA{i}"), "alice", aircraft(1, 0, 0));
    }
    match state.start_track(&FlightIdentifier::parse("NEW"), "alice") {
        TrackStart::Reply(r) => assert_eq!(r, "Du trackst schon 3 Flüge FDM"),
        other => panic!("unexpected {other:?}"),
    }
    for i in 0..9 {
        follow(&mut state, &format!("BB{i}"), &format!("u{i}"), aircraft(1, 0, 0));
    }
    match state.start_track(&FlightIdentifier::parse("NEW"), "zoe") {
        TrackStart::Reply(r) => assert_eq!(r, "Maximal 12 Flüge gleichzeitig FDM"),
        other => panic!("unexpected {other:?}"),
    }
}

#[test]
fn untracking_is_gated() {
    let mut state = FlightTrackerState::new();
    follow(&mut state, "DLH123", "alice", aircraft(1, 0, 0));
    assert_eq!(find_flight_index(&state.flights, "dlh123"), Some(0));
    assert_eq!(find_flight_index(&state.flights, "3c6444"), Some(0));
    assert_eq!(state.untrack("nope", "alice", false).reply, "nope nicht gefunden FDM");
    let out = state.untrack("dlh123", "bob", false);
    assert_eq!(out.reply, "Nur der Tracker oder Mods können das untracking machen FDM");
    assert!(!out.save);
    assert_eq!(state.status(Some("nope"), &at(NOW)), "nope nicht gefunden FDM");
    let out = state.untrack("dlh123", "bob", true);
    assert_eq!(out.reply, "DLH123 wird nicht mehr getrackt Okayge");
    assert!(out.save);
    assert_eq!(state.status(None, &at(NOW)), "Keine Flüge getrackt");
}

#[test]
fn polling_is_adaptive() {
    assert_eq!(compute_poll_interval(&vec![]), Duration::from_secs(120));
    let cruise = one_flight(FlightPhase::Cruise, 5);
    assert_eq!(compute_poll_interval(&vec![cruise.clone()]), Duration::from_secs(120));
    let climb = one_flight(FlightPhase::Climb, 5);
    assert_eq!(compute_poll_interval(&vec![cruise.clone(), climb]), Duration::from_secs(60));
    let fresh = one_flight(FlightPhase::Cruise, 4);
    assert_eq!(compute_poll_interval(&vec![cruise.clone(), fresh]), Duration::from_secs(30));
    let approach = one_flight(FlightPhase::Approach, 9);
    assert_eq!(compute_poll_interval(&vec![cruise, approach]), Duration::from_secs(30));
}

#[test]
fn polls_ask_for_what_is_known() {
    let mut f = one_flight(FlightPhase::Cruise, 5);
    assert!(matches!(poll_query(&f), AircraftQuery::ByHex(h) if h == "3C6444"));
    f.hex = None;
    assert!(matches!(poll_query(&f), AircraftQuery::ByCallsign(c) if c == "DLH123"));
    assert_eq!(wanted_route(&f, &aircraft(1, 0, 0)), None);
    f.callsign = None;
    assert_eq!(wanted_route(&f, &aircraft(1, 0, 0)).as_deref(), Some("DLH123"));
}

fn found(ac: NearbyAircraft, bearings: Option<Bearings>) -> PollResult {
    PollResult::Found { ac, route: None, bearings }
}

#[test]
fn polls_report_changes() {
    let mut state = FlightTrackerState::new();
    state.flights.push(one_flight(FlightPhase::Climb, 2));
    let out = state.apply_polls(&vec![found(aircraft(35_000, 0, 450_000), None)], &at(NOW + 30));
    assert_eq!(out.messages, vec!["DLH123 (A320) cruist auf FL350"]);
    assert!(out.changed);
    assert_eq!(state.flights[0].phase, FlightPhase::Cruise);
    assert_eq!(state.flights[0].last_seen, Some(at(NOW + 30)));
    assert_eq!(state.flights[0].polls_since_change, 0);

    let out = state.apply_polls(&vec![found(aircraft(35_000, 0, 450_000), None)], &at(NOW + 60));
    assert!(out.messages.is_empty());
    assert!(!out.changed);
    assert_eq!(state.flights[0].polls_since_change, 1);

    let mut squawking = aircraft(35_000, 0, 450_000);
    squawking.squawk = Some("7700".to_string());
    let out = state.apply_polls(&vec![found(squawking, None)], &at(NOW + 90));
    assert_eq!(out.messages, vec!["⚠ DLH123 (A320) squawkt 7700! (Emergency)"]);

    let landed = NearbyAircraft { alt_baro: Some(AltBaro::Ground), ..aircraft(0, 0, 0) };
    let out = state.apply_polls(&vec![found(landed, None)], &at(NOW + 120));
    assert_eq!(out.messages, vec!["DLH123 (A320) ist gelandet! Flugzeit: 2m"]);
    assert_eq!(state.flights[0].phase, FlightPhase::Ground);
}

#[test]
fn lost_flights_are_removed() {
    let mut state = FlightTrackerState::new();
    state.flights.push(one_flight(FlightPhase::Cruise, 2));
    let out = state.apply_polls(&vec![PollResult::NotFound], &at(NOW + 1_799));
    assert!(out.messages.is_empty());
    assert_eq!(state.flights.len(), 1);
    let out = state.apply_polls(&vec![PollResult::Unavailable], &at(NOW + 9_000));
    assert!(!out.changed);
    assert_eq!(state.flights.len(), 1);
    let out = state.apply_polls(&vec![PollResult::NotFound], &at(NOW + 1_800));
    assert_eq!(out.messages, vec!["DLH123 Signal verloren, wird nicht mehr getrackt"]);
    assert!(out.changed);
    assert!(state.flights.is_empty());
}

#[test]
fn diverts_are_noticed_once() {
    let mut state = FlightTrackerState::new();
    let mut f = one_flight(FlightPhase::Descent, 2);
    f.set_route(&route());
    state.flights.push(f);
    let ac = aircraft(20_000, -800, 400_000);
    let q = course_query(&state.flights[0], &ac, &None).unwrap();
    assert_eq!(q.previous, (50_000_000, 8_000_000));
    assert_eq!(q.destination, (48_353_000, 11_786_000));
    let away = Bearings { ground_track: 350_000, to_destination: 120_000 };
    let mut said = Vec::new();
    for i in 0..4 {
        let out = state.apply_polls(&vec![found(ac.clone(), Some(away))], &at(NOW + i));
        said.push(out.messages);
    }
    assert_eq!(said[0].len() + said[1].len() + said[3].len(), 0);
    assert_eq!(said[2], vec!["⚠ DLH123 (A320) FRA→MUC scheint zu diverten!"]);
    // Ninety degrees exactly, across north, is no divert.
    let edge = Bearings { ground_track: 350_000, to_destination: 80_000 };
    state.apply_polls(&vec![found(ac, Some(edge))], &at(NOW + 9));
    assert_eq!(state.flights[0].divert_consecutive_polls, 0);
}

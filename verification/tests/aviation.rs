use twitch_1337::aviation::{
    airline_table, airport_rows, arrow, finish_callsign, format_altitude, format_one_decimal,
    is_iata_flight_number, is_iata_pattern, is_icao_pattern, is_in_cone, is_valid_plz, plan_reply,
    plz_row, read_flight_request, resolve_callsign, resolve_location, select_airports,
    select_candidates, shorten_name, start_up, up_failure, up_reply, AirportData, AltBaro,
    CallsignStep, FlightPlan, FlightRequest, Located, NearbyAircraft, Overhead, UpFailure, UpStart,
    FLIGHT_USAGE, NO_ROUTE, UNKNOWN_AIRCRAFT,
};
use twitch_1337::table::Table;
use twitch_1337::time::{Duration, Instant};

fn at(secs: u64) -> Instant {
    Instant { nanos: secs as u128 * 1_000_000_000 }
}

fn aircraft(alt: Option<AltBaro>, callsign: &str) -> NearbyAircraft {
    NearbyAircraft {
        hex: None,
        flight: Some(callsign.to_string()),
        t: None,
        alt_baro: alt,
        lat: Some(1),
        lon: Some(2),
        gs: None,
        baro_rate: None,
        geom_rate: None,
        squawk: None,
        nav_modes: None,
    }
}

#[test]
fn codes_are_recognised() {
    assert!(is_valid_plz("01067"));
    assert!(!is_valid_plz("1067"));
    assert!(!is_valid_plz("0106a"));
    assert!(is_icao_pattern("eddf"));
    assert!(!is_icao_pattern("edd1"));
    assert!(is_iata_pattern("FRA"));
    assert!(!is_iata_pattern("FR"));
    assert!(is_iata_flight_number("TP247"));
    assert!(is_iata_flight_number("LH1"));
    assert!(!is_iata_flight_number("LH"));
    assert!(!is_iata_flight_number("LH12345"));
    assert!(!is_iata_flight_number("lh1"));
    assert!(!is_iata_flight_number("TAP247"));
}

#[test]
fn tables_are_read() {
    let (plz, lat, lon) = plz_row("01067,51.06,13.71").unwrap();
    assert_eq!((plz.as_str(), lat.as_str(), lon.as_str()), ("01067", "51.06", "13.71"));
    assert!(plz_row("01067,51.06").is_none());

    let t = airline_table("LH,DLH\n TP , TAP \nbad\nABC,DEFG\nLH,XXX");
    assert_eq!(t.len(), 2);
    assert_eq!(t.get("TP").unwrap(), "TAP");
    assert_eq!(t.get("LH").unwrap(), "XXX");
}

#[test]
fn callsigns_are_resolved() {
    let t = airline_table("LH,DLH");
    match resolve_callsign("LH400", &t) {
        CallsignStep::Ready(s) => assert_eq!(s, "DLH400"),
        other => panic!("unexpected {other:?}"),
    }
    match resolve_callsign("DLH400", &t) {
        CallsignStep::Ready(s) => assert_eq!(s, "DLH400"),
        other => panic!("unexpected {other:?}"),
    }
    match resolve_callsign("TP247", &t) {
        CallsignStep::LookUpAirline(s) => assert_eq!(s, "TP"),
        other => panic!("unexpected {other:?}"),
    }
    assert_eq!(finish_callsign("TP247", &Some("TAP".to_string())), "TAP247");
    assert_eq!(finish_callsign("TP247", &None), "TP247");
}

#[test]
fn airports_are_read() {
    let rows = airport_rows(
        "EDDF,FRA,\"Frankfurt, Main\",50.03,8.57\nshort,row\n EDDM , MUC , München ,48.35,11.78\n",
    );
    assert_eq!(rows.len(), 2);
    assert_eq!(rows[0].name, "Frankfurt, Main");
    assert_eq!(rows[1].icao, "EDDM");
    assert_eq!(rows[1].iata, "MUC");
    assert_eq!(rows[1].lat, "48.35");
    assert!(select_airports(&vec![None, Some(vec!["x".to_string()])]).is_empty());

    let mut data = AirportData::new();
    data.insert(&rows[0], 50_030_000, 8_570_000);
    assert_eq!(data.iata_to_coords("FRA"), Some((50_030_000, 8_570_000)));
    assert_eq!(data.iata_to_coords("fra"), None);

    let mut plz: Table<(i64, i64)> = Table::new();
    plz.insert("01067".to_string(), (51_060_000, 13_710_000));
    match resolve_location("01067", &plz, &data) {
        Located::Found(p) => {
            assert_eq!(p.name, "01067");
            assert_eq!(p.lat, 51_060_000);
        }
        other => panic!("unexpected {other:?}"),
    }
    assert!(matches!(resolve_location("99999", &plz, &data), Located::PlzNotFound));
    match resolve_location("eddf", &plz, &data) {
        Located::Found(p) => assert_eq!(p.name, "Frankfurt, Main"),
        other => panic!("unexpected {other:?}"),
    }
    assert!(matches!(resolve_location("fra", &plz, &data), Located::Found(_)));
    assert!(matches!(resolve_location("xyz", &plz, &data), Located::Geocode));
    assert!(matches!(resolve_location("Dresden", &plz, &data), Located::Geocode));
    assert_eq!(shorten_name(" Dresden , Sachsen, Deutschland"), "Dresden");
}

#[test]
fn up_starts_with_a_wait() {
    let mut cooldowns: Table<Instant> = Table::new();
    let wait = Duration::from_secs(30);
    match start_up(&mut cooldowns, "alice", "  ", wait, at(0)) {
        UpStart::Reply(s) => assert_eq!(s, "Benutzung: !up <PLZ/ICAO/IATA/Ort> FDM"),
        other => panic!("unexpected {other:?}"),
    }
    match start_up(&mut cooldowns, "alice", " fra ", wait, at(0)) {
        UpStart::LookUp(s) => assert_eq!(s, "fra"),
        other => panic!("unexpected {other:?}"),
    }
    match start_up(&mut cooldowns, "alice", "fra", wait, at(29)) {
        UpStart::Reply(s) => assert_eq!(s, "Bitte warte noch ein bisschen Waiting"),
        other => panic!("unexpected {other:?}"),
    }
    assert!(matches!(start_up(&mut cooldowns, "bob", "fra", wait, at(29)), UpStart::LookUp(_)));
    assert!(matches!(start_up(&mut cooldowns, "alice", "fra", wait, at(30)), UpStart::LookUp(_)));
    let short = Duration::from_secs(5);
    assert!(matches!(start_up(&mut cooldowns, "bob", "fra", short, at(34)), UpStart::LookUp(_)));
    assert!(matches!(start_up(&mut cooldowns, "bob", "fra", short, at(38)), UpStart::Reply(_)));
}

#[test]
fn the_cone_of_sight() {
    let high = aircraft(Some(AltBaro::Feet(35_000)), "A");
    assert!(is_in_cone(&high, 15_000_000));
    assert!(!is_in_cone(&high, 15_000_001));
    let low = aircraft(Some(AltBaro::Feet(7_000)), "A");
    assert!(is_in_cone(&low, 3_000_000));
    assert!(!is_in_cone(&low, 3_000_001));
    assert!(!is_in_cone(&aircraft(Some(AltBaro::Ground), "A"), 0));
    assert!(!is_in_cone(&aircraft(Some(AltBaro::Feet(0)), "A"), 0));
    assert!(!is_in_cone(&aircraft(None, "A"), 0));

    let list = vec![
        aircraft(Some(AltBaro::Ground), "GND"),
        aircraft(Some(AltBaro::Feet(35_000)), "  "),
        aircraft(Some(AltBaro::Feet(35_000)), " DLH1 "),
        aircraft(Some(AltBaro::Feet(35_000)), "FAR"),
    ];
    let got = select_candidates(&list, &vec![0, 0, 1, 16_000_000]);
    assert_eq!(got.len(), 1);
    assert_eq!(got[0].index, 2);
    assert_eq!(got[0].callsign, "DLH1");
    let many: Vec<NearbyAircraft> =
        (0..12).map(|_| aircraft(Some(AltBaro::Feet(35_000)), "X")).collect();
    assert_eq!(select_candidates(&many, &vec![0; 12]).len(), 10);
}

#[test]
fn up_texts() {
    assert_eq!(arrow("N"), "↑");
    assert_eq!(arrow("SW"), "↙");
    assert_eq!(arrow("?"), "?");
    assert_eq!(format_altitude(&Some(AltBaro::Feet(35_050))), "FL350");
    assert_eq!(format_altitude(&Some(AltBaro::Feet(999))), "999ft");
    assert_eq!(format_altitude(&Some(AltBaro::Ground)), "GND");
    assert_eq!(format_altitude(&None), "?");
    assert_eq!(format_one_decimal(3_140_000), "3.1");
    assert_eq!(format_one_decimal(3_150_001), "3.2");
    assert_eq!(format_one_decimal(960_000), "1.0");

    assert_eq!(up_reply(&vec![], "Dresden"), "Nix los über Dresden");
    let o = Overhead {
        callsign: "DLH1".to_string(),
        icao_type: None,
        alt: Some(AltBaro::Feet(35_000)),
        origin: "FRA".to_string(),
        destination: "MUC".to_string(),
        distance: 3_140_000,
        direction: "NE".to_string(),
    };
    assert_eq!(
        up_reply(&vec![o.clone()], "Dresden"),
        "✈ 1 Flieger über Dresden: DLH1 (?) FRA→MUC FL350 3.1nm ↗"
    );
    let all = up_reply(&vec![o.clone(); 7], "Dresden");
    assert!(all.starts_with("✈ 7 Flieger"));
    assert_eq!(all.matches("DLH1").count(), 5);
    assert_eq!(up_failure(UpFailure::PlzNotFound), "Kenne ich nicht die PLZ FDM");
    assert_eq!(up_failure(UpFailure::NotFound), "Kenne ich nicht FDM");
    assert_eq!(up_failure(UpFailure::Failed), "Da ist was schiefgelaufen FDM");
}

#[test]
fn flights_are_requested() {
    assert!(matches!(
        read_flight_request(None, false, None),
        FlightRequest::Reply(r) if r == FLIGHT_USAGE
    ));
    assert!(matches!(
        read_flight_request(Some("XXXX"), false, Some("1h")),
        FlightRequest::Reply(r) if r == UNKNOWN_AIRCRAFT
    ));
    match read_flight_request(Some("A20N"), true, Some("1h30m")) {
        FlightRequest::Plan { aircraft, duration } => {
            assert_eq!(aircraft, "A20N");
            assert_eq!(duration, Duration::from_secs(5_400));
        }
        other => panic!("unexpected {other:?}"),
    }
    assert!(NO_ROUTE.ends_with("FDM"));
    let plan = FlightPlan {
        departure: "EDDF".to_string(),
        arrival: "EDDM".to_string(),
        distance_nm: 162_499,
        block_time: Duration::from_secs(4_320),
        cruise_altitude_ft: 35_000,
        url: "https://x".to_string(),
    };
    assert_eq!(plan_reply(&plan), "EDDF -> EDDM | 162 nm | 1h12m | FL350 | https://x");
    let short = FlightPlan { block_time: Duration::from_secs(359), ..plan };
    assert_eq!(plan_reply(&short), "EDDF -> EDDM | 162 nm | 5m | FL350 | https://x");
}

use twitch_1337::clock::SystemClock;
use twitch_1337::json::{array, get_integer, get_string, get_strings, get_unsigned, object};
use twitch_1337::latency::{is_own_pong, is_reported};
use twitch_1337::order::{sort, Item};
use twitch_1337::streamelements::{command_url, commands_url, Command, CommandCooldown};
use twitch_1337::table::Table;
use twitch_1337::text::{collapse_ws, from_i64, parse_i64, replace, split, split_words};
use twitch_1337::time::{read_rfc3339, Duration, Instant, TimeDelta, Timestamp};
use twitch_1337::token_storage::{choose_token, TokenSource};
use twitch_1337::twitch_setup::{on_login_event, wanted_channels, LoginEvent, LoginStep};
use twitch_1337::util::{
    get_config_path, get_data_dir, parse_flight_duration, truncate_response,
};
use twitch_1337::whisper::{truncate_whisper_message, Recipients, WhisperError};

fn words(list: &[&str]) -> Vec<String> {
    list.iter().map(|s| s.to_string()).collect()
}

#[test]
fn responses_are_cut_between_words() {
    assert_eq!(truncate_response("a  b\tc", 5), "a b c");
    // The dots count, and the cut is at a word boundary.
    assert_eq!(truncate_response("hello big world", 11), "hello...");
    assert_eq!(truncate_response("hello big world", 12), "hello big...");
    assert_eq!(truncate_response("ab hello world", 11), "ab hello...");
    assert_eq!(truncate_response("ab hello world", 10), "ab...");
    // A space among the last two leaves no room for the dots.
    assert_eq!(truncate_response("abcd ef", 5), "ab...");
    assert_eq!(truncate_response("hello big world", 15), "hello big world");
    assert_eq!(truncate_response("überlang", 7), "über...");
    assert_eq!(truncate_response("abcdef", 5), "ab...");
    assert_eq!(truncate_response("abcdef", 3), "...");
    assert_eq!(truncate_response("abcdef", 2), "..");
    assert_eq!(truncate_response("", 0), "");
}

#[test]
fn flight_durations() {
    assert_eq!(parse_flight_duration(" 1h "), Some(Duration::from_secs(3600)));
    assert_eq!(parse_flight_duration("2H30m"), Some(Duration::from_secs(9000)));
    assert_eq!(parse_flight_duration("30"), None);
    assert_eq!(parse_flight_duration("h"), None);
    assert_eq!(parse_flight_duration("0m"), None);
    assert_eq!(parse_flight_duration("1d"), None);
    assert_eq!(parse_flight_duration(""), None);
}

#[test]
fn directories() {
    assert_eq!(get_data_dir(None), "/var/lib/twitch-1337");
    assert_eq!(get_data_dir(Some("/x".to_string())), "/x");
    assert_eq!(get_config_path("/x"), "/x/config.toml");
}

#[test]
fn whispers_to_strangers_are_short() {
    let long = "wort ".repeat(3_000);
    assert!(truncate_whisper_message(&long, false).chars().count() <= 500);
    let known = truncate_whisper_message(&long, true).chars().count();
    assert!(known > 500 && known <= 10_000);
    let mut r = Recipients::new();
    assert!(!r.contains("1"));
    assert_eq!(r.prepare("1", "  hi  there ").unwrap(), "hi there");
    assert!(matches!(r.prepare("1", "   "), Err(WhisperError::EmptyMessage)));
    assert!(r.remember("1"));
    assert!(!r.remember("1"));
    assert!(r.contains("1"));
    assert!(r.remember("0"));
    assert_eq!(r.to_list(), vec!["1", "0"]);
    assert!(r.prepare("1", &long).unwrap().chars().count() > 500);
}

#[test]
fn whisper_errors() {
    assert_eq!(
        WhisperError::MissingToken.to_text(),
        "missing user access token for whisper API"
    );
    assert_eq!(
        WhisperError::Credentials("x".to_string()).to_text(),
        "failed to obtain Twitch credentials: x"
    );
    assert_eq!(WhisperError::EmptyMessage.to_text(), "whisper message is empty");
    assert_eq!(
        WhisperError::Api { status: "401 Unauthorized".to_string(), body: "b".to_string() }
            .to_text(),
        "Twitch whisper API returned 401 Unauthorized: b"
    );
    assert_eq!(
        WhisperError::Http("e".to_string()).to_text(),
        "Twitch whisper API request failed: e"
    );
    assert_eq!(
        WhisperError::unavailable("r".to_string()).to_text(),
        "whisper unavailable: r"
    );
}

#[test]
fn logins_are_verified() {
    let notice = |s: &str| on_login_event(&LoginEvent::Notice(s.to_string()));
    assert!(matches!(notice("Login authentication failed"), LoginStep::Failed(m) if m.contains("scopes")));
    assert!(matches!(notice("Login unsuccessful"), LoginStep::Failed(m) if m.contains("expired")));
    assert!(matches!(notice("hello"), LoginStep::Wait));
    assert!(matches!(on_login_event(&LoginEvent::GlobalUserState), LoginStep::Verified));
    assert!(matches!(on_login_event(&LoginEvent::Other), LoginStep::Wait));
    assert!(matches!(
        on_login_event(&LoginEvent::Closed),
        LoginStep::Failed("Connection closed during verification")
    ));
    assert_eq!(wanted_channels("a", &None), vec!["a"]);
    assert_eq!(wanted_channels("a", &Some("a".to_string())), vec!["a"]);
    assert_eq!(wanted_channels("a", &Some("b".to_string())).len(), 2);
}

#[test]
fn tokens_are_chosen() {
    assert!(matches!(choose_token(&None, "c"), TokenSource::Configuration));
    assert!(matches!(choose_token(&Some("s".to_string()), "c"), TokenSource::Configuration));
    assert!(matches!(choose_token(&Some("c".to_string()), "c"), TokenSource::Stored));
}

#[test]
fn pongs_and_reports() {
    assert!(is_own_pong(&words(&["tmi.twitch.tv", "123"]), "123"));
    assert!(!is_own_pong(&words(&["123"]), "123"));
    assert!(!is_own_pong(&words(&["123", "124"]), "123"));
    assert!(is_reported(110, 100));
    assert!(is_reported(90, 100));
    assert!(!is_reported(109, 100));
}

#[test]
fn clocks_wait_forward_only() {
    let c = SystemClock::default();
    let t = |s: i64| Timestamp::new(s, 0).unwrap();
    assert_eq!(c.delay_until(&t(105), &t(100)), Duration::from_secs(5));
    assert_eq!(c.delay_until(&t(95), &t(100)), Duration::from_secs(0));
}

#[test]
fn stream_elements_urls() {
    assert_eq!(commands_url("c"), "https://api.streamelements.com/kappa/v2/bot/commands/c");
    let command = Command {
        cooldown: CommandCooldown { user: 1, global: 2 },
        aliases: vec![],
        keywords: vec![],
        enabled: true,
        enabled_online: true,
        enabled_offline: true,
        hidden: false,
        cost: 0,
        command_type: "say".to_string(),
        access_level: 100,
        id: "42".to_string(),
        regex: None,
        reply: "r".to_string(),
        command: "x".to_string(),
        channel: "c".to_string(),
        created_at: String::new(),
        updated_at: String::new(),
    };
    assert_eq!(
        command_url("c", &command),
        "https://api.streamelements.com/kappa/v2/bot/commands/c/42"
    );
}

#[test]
fn times() {
    assert!(Timestamp::new(0, 1_000_000_000).is_none());
    let t = read_rfc3339("2026-01-01T01:00:00.5+01:00").unwrap();
    assert_eq!(t.secs(), 1_767_225_600);
    assert_eq!(t.nanos(), 500_000_000);
    assert!(read_rfc3339("2026-01-01").is_none());
    let u = Timestamp::new(1_767_225_599, 0).unwrap();
    assert!(u.is_before(&t));
    assert_eq!(t.since(&u), TimeDelta { nanos: 1_500_000_000 });
    assert_eq!(u.since(&t).num_seconds(), -1);
    assert_eq!(TimeDelta { nanos: -3_599_000_000_000 }.num_hours(), 0);
    let i = Instant { nanos: 5 };
    assert_eq!(i.since(&Instant { nanos: 9 }), Duration { nanos: 0 });
}

#[test]
fn tables_keep_their_order() {
    let mut t: Table<u8> = Table::new();
    t.insert("b".to_string(), 1);
    t.insert("a".to_string(), 2);
    t.insert("b".to_string(), 3);
    assert_eq!(t.len(), 2);
    assert_eq!(t.key_at(0), "b");
    assert_eq!(t.get("b"), Some(&3));
    assert_eq!(t.remove("b"), Some(3));
    assert_eq!(t.remove("b"), None);
    assert_eq!(t.key_at(0), "a");
}

#[test]
fn items_are_sorted() {
    let item = |rank: i64, key: &str, index: usize| Item { rank, key: key.to_string(), index };
    let order: Vec<usize> = sort(vec![item(2, "a", 0), item(1, "b", 1), item(1, "a", 2)])
        .into_iter()
        .map(|i| i.index)
        .collect();
    assert_eq!(order, vec![2, 1, 0]);
}

#[test]
fn json_members() {
    let j = r#"{"s":"x","i":-3,"u":7,"l":["a",1,"b"],"n":null}"#;
    assert_eq!(get_string(j, "s").as_deref(), Some("x"));
    assert_eq!(get_string(j, "i"), None);
    assert_eq!(get_integer(j, "i"), Some(-3));
    assert_eq!(get_unsigned(j, "i"), None);
    assert_eq!(get_unsigned(j, "u"), Some(7));
    assert_eq!(get_strings(j, "l"), vec!["a", "b"]);
    assert_eq!(get_string("no json", "s"), None);
    assert_eq!(object(&vec![("a", "1".to_string()), ("b", "[]".to_string())]), r#"{"a":1,"b":[]}"#);
    assert_eq!(array(&words(&["1", "2"])), "[1,2]");
}

#[test]
fn texts() {
    assert_eq!(collapse_ws("  a \u{a0} b\n"), "a b");
    assert_eq!(split_words(" a  b "), vec!["a", "b"]);
    assert_eq!(split("a,,b", ','), vec!["a", "", "b"]);
    assert_eq!(replace("aXbX", "X", "yy"), "ayybyy");
    assert_eq!(parse_i64("-9223372036854775808"), Some(i64::MIN));
    assert_eq!(parse_i64("9223372036854775808"), None);
    assert_eq!(parse_i64("+5"), Some(5));
    assert_eq!(from_i64(i64::MIN), "-9223372036854775808");
}

use twitch_1337::commands::normalize_command_name;
use twitch_1337::commands::suspend::{
    duration_error_message, execute_suspend, execute_unsuspend, is_exempt,
};
use twitch_1337::commands::CommandContext;
use twitch_1337::memory::scope::Badge;
use twitch_1337::suspend::{
    parse_duration, ParseDurationError, SuspensionManager, MAX_SUSPEND_DURATION,
};
use twitch_1337::time::{Duration, Instant};

fn at_millis(ms: u64) -> Instant {
    Instant { nanos: ms as u128 * 1_000_000 }
}

fn context(badge: Option<&str>, args: &[&str]) -> CommandContext {
    CommandContext {
        sender_id: "7".to_string(),
        sender_login: "alice".to_string(),
        badges: badge
            .map(|name| Badge { name: name.to_string(), version: "1".to_string() })
            .into_iter()
            .collect(),
        message_text: String::new(),
        trigger: "!suspend".to_string(),
        args: args.iter().map(|a| a.to_string()).collect(),
        reply_parent: None,
    }
}

#[test]
fn parse_duration_accepts_valid_forms() {
    assert_eq!(parse_duration("30s").unwrap(), Duration::from_secs(30));
    assert_eq!(parse_duration("10m").unwrap(), Duration::from_secs(600));
    assert_eq!(parse_duration("2h").unwrap(), Duration::from_secs(7200));
    assert_eq!(parse_duration("1d").unwrap(), Duration::from_secs(86_400));
    assert_eq!(parse_duration("90").unwrap(), Duration::from_secs(90));
}

#[test]
fn parse_duration_trims_whitespace() {
    assert_eq!(parse_duration("  30s  ").unwrap(), Duration::from_secs(30));
}

#[test]
fn parse_duration_rejects_empty() {
    assert_eq!(parse_duration(""), Err(ParseDurationError::Empty));
    assert_eq!(parse_duration("   "), Err(ParseDurationError::Empty));
}

#[test]
fn parse_duration_rejects_non_numeric() {
    assert_eq!(parse_duration("abc"), Err(ParseDurationError::UnknownUnit));
    assert_eq!(parse_duration("-1"), Err(ParseDurationError::InvalidNumber));
}

#[test]
fn parse_duration_rejects_zero() {
    assert_eq!(parse_duration("0"), Err(ParseDurationError::Zero));
    assert_eq!(parse_duration("0s"), Err(ParseDurationError::Zero));
    assert_eq!(parse_duration("0m"), Err(ParseDurationError::Zero));
}

#[test]
fn parse_duration_rejects_above_cap() {
    assert_eq!(parse_duration("8d"), Err(ParseDurationError::TooLong));
    assert_eq!(parse_duration("604801"), Err(ParseDurationError::TooLong));
}

#[test]
fn parse_duration_accepts_exact_cap() {
    assert_eq!(parse_duration("7d").unwrap(), Duration::from_secs(MAX_SUSPEND_DURATION));
}

#[test]
fn parse_duration_rejects_unknown_unit() {
    assert_eq!(parse_duration("1w"), Err(ParseDurationError::UnknownUnit));
    assert_eq!(parse_duration("5y"), Err(ParseDurationError::UnknownUnit));
}

#[test]
fn parse_duration_rejects_missing_number() {
    assert_eq!(parse_duration("s"), Err(ParseDurationError::InvalidNumber));
    assert_eq!(parse_duration("m"), Err(ParseDurationError::InvalidNumber));
}

#[test]
fn parse_duration_rejects_what_is_no_plain_number() {
    assert_eq!(parse_duration("+5"), Err(ParseDurationError::InvalidNumber));
    assert_eq!(parse_duration("99999999999999999999"), Err(ParseDurationError::InvalidNumber));
    assert_eq!(parse_duration("99999999999999999d"), Err(ParseDurationError::InvalidNumber));
    assert_eq!(parse_duration("5ü"), Err(ParseDurationError::UnknownUnit));
}

#[test]
fn error_texts() {
    assert_eq!(ParseDurationError::Empty.to_text(), "duration is empty");
    assert_eq!(ParseDurationError::InvalidNumber.to_text(), "invalid number");
    assert_eq!(ParseDurationError::UnknownUnit.to_text(), "unknown unit (use s, m, h, or d)");
    assert_eq!(ParseDurationError::Zero.to_text(), "duration must be greater than zero");
    assert_eq!(ParseDurationError::TooLong.to_text(), "duration exceeds maximum of 7 days");
}

#[test]
fn suspend_and_is_suspended() {
    let mut mgr = SuspensionManager::new();
    mgr.suspend("ai", Duration::from_secs(60), at_millis(0));
    let remaining = mgr.is_suspended("ai", at_millis(1));
    assert!(remaining.is_some());
    assert_eq!(remaining.unwrap(), Duration::from_millis(59_999));
}

#[test]
fn is_suspended_returns_none_after_expiry() {
    let mut mgr = SuspensionManager::new();
    mgr.suspend("ai", Duration::from_millis(50), at_millis(0));
    assert!(mgr.is_suspended("ai", at_millis(49)).is_some());
    assert!(mgr.is_suspended("ai", at_millis(50)).is_none());
    assert!(mgr.is_suspended("ai", at_millis(80)).is_none());
}

#[test]
fn unsuspend_removes_active_entry() {
    let mut mgr = SuspensionManager::new();
    mgr.suspend("ai", Duration::from_secs(60), at_millis(0));
    assert!(mgr.unsuspend("ai", at_millis(1)));
    assert!(mgr.is_suspended("ai", at_millis(1)).is_none());
}

#[test]
fn unsuspend_unknown_key_returns_false() {
    let mut mgr = SuspensionManager::new();
    assert!(!mgr.unsuspend("nope", at_millis(0)));
}

#[test]
fn unsuspend_expired_entry_returns_false() {
    let mut mgr = SuspensionManager::new();
    mgr.suspend("ai", Duration::from_millis(20), at_millis(0));
    assert!(!mgr.unsuspend("ai", at_millis(50)));
}

#[test]
fn suspend_overwrites_existing_entry() {
    let mut mgr = SuspensionManager::new();
    mgr.suspend("ai", Duration::from_secs(3600), at_millis(0));
    mgr.suspend("ai", Duration::from_millis(30), at_millis(0));
    assert!(mgr.is_suspended("ai", at_millis(60)).is_none());
}

#[test]
fn keys_are_lowercased() {
    let mut mgr = SuspensionManager::new();
    mgr.suspend("AI", Duration::from_secs(60), at_millis(0));
    assert!(mgr.is_suspended("ai", at_millis(1)).is_some());
    assert!(mgr.is_suspended("Ai", at_millis(1)).is_some());
    assert!(mgr.unsuspend("aI", at_millis(1)));
}

#[test]
fn normalize_command_name_strips_bangs_and_lowercases() {
    assert_eq!(normalize_command_name("AI"), "ai");
    assert_eq!(normalize_command_name("!AI"), "ai");
    assert_eq!(normalize_command_name("!!foo"), "foo");
    assert_eq!(normalize_command_name("track"), "track");
}

#[test]
fn exempt_list_covers_required_commands() {
    assert!(is_exempt("suspend"));
    assert!(is_exempt("unsuspend"));
    assert!(is_exempt("p"));
}

#[test]
fn other_commands_are_not_exempt() {
    assert!(!is_exempt("ai"));
    assert!(!is_exempt("P"));
    assert!(!is_exempt(""));
}

#[test]
fn duration_error_messages_end_in_fdm() {
    for err in [
        ParseDurationError::Empty,
        ParseDurationError::InvalidNumber,
        ParseDurationError::UnknownUnit,
        ParseDurationError::Zero,
        ParseDurationError::TooLong,
    ] {
        let msg = duration_error_message(&err);
        assert!(msg.ends_with("FDM"), "expected FDM suffix, got: {msg}");
    }
}

#[test]
fn suspend_command_suspends_for_the_default_or_a_given_time() {
    let mut mgr = SuspensionManager::new();
    let now = at_millis(5_000);
    let reply = execute_suspend(
        &mut mgr,
        &context(Some("moderator"), &["!AI"]),
        &vec![],
        Duration::from_secs(600),
        now,
    );
    assert_eq!(reply, "!ai gesperrt für 10m 0s");
    assert_eq!(mgr.is_suspended("ai", now), Some(Duration::from_secs(600)));

    let reply = execute_suspend(
        &mut mgr,
        &context(None, &["up", "30s"]),
        &vec!["7".to_string()],
        Duration::from_secs(600),
        now,
    );
    assert_eq!(reply, "!up gesperrt für 30s");
    assert_eq!(mgr.is_suspended("up", now), Some(Duration::from_secs(30)));
}

#[test]
fn suspend_command_refuses() {
    let mut mgr = SuspensionManager::new();
    let now = at_millis(0);
    let d = Duration::from_secs(600);
    let mut run = |badge: Option<&str>, args: &[&str]| {
        execute_suspend(&mut mgr, &context(badge, args), &vec![], d, now)
    };
    assert_eq!(run(None, &["ai"]), "Das darfst du nicht FDM");
    assert_eq!(run(Some("vip"), &["ai"]), "Das darfst du nicht FDM");
    assert_eq!(run(Some("broadcaster"), &[]), "Nutze: !suspend <command> [dauer]");
    assert_eq!(run(Some("broadcaster"), &["!P"]), "Das kann nicht gesperrt werden FDM");
    assert_eq!(
        run(Some("broadcaster"), &["ai", "1w"]),
        "Unbekannte Einheit. Erlaubt: s, m, h, d FDM"
    );
    assert_eq!(run(Some("broadcaster"), &["ai", "8d"]), "Dauer zu lang (max 7 Tage) FDM");
    assert!(mgr.is_suspended("ai", now).is_none());
    assert!(mgr.is_suspended("p", now).is_none());
}

#[test]
fn unsuspend_command_answers() {
    let mut mgr = SuspensionManager::new();
    let now = at_millis(0);
    mgr.suspend("ai", Duration::from_secs(60), now);
    let ctx = context(Some("moderator"), &["!Ai"]);
    assert_eq!(execute_unsuspend(&mut mgr, &ctx, &vec![], now), "!ai entsperrt Okayge");
    assert_eq!(execute_unsuspend(&mut mgr, &ctx, &vec![], now), "!ai war nicht gesperrt FDM");
    assert_eq!(
        execute_unsuspend(&mut mgr, &context(Some("moderator"), &[]), &vec![], now),
        "Nutze: !unsuspend <command>"
    );
    assert_eq!(
        execute_unsuspend(&mut mgr, &context(None, &["ai"]), &vec![], now),
        "Das darfst du nicht FDM"
    );
}

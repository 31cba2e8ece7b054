use twitch_1337::commands::ping_admin;
use twitch_1337::commands::ping_trigger;
use twitch_1337::commands::ping_trigger::{parse_ping_trigger, TriggerReply};
use twitch_1337::commands::CommandContext;
use twitch_1337::memory::scope::Badge;
use twitch_1337::ping::{Ping, PingManager, PingStore, TriggerDecision};
use twitch_1337::time::{Duration, Instant};

fn at(secs: u64) -> Instant {
    Instant { nanos: secs as u128 * 1_000_000_000 }
}

fn empty_manager() -> PingManager {
    PingManager::new(PingStore::new())
}

fn test_manager() -> PingManager {
    let mut mgr = empty_manager();
    mgr.create_ping("test".to_string(), "Hey {mentions}!".to_string(), "admin".to_string(), None)
        .unwrap();
    mgr
}

fn ping_of<'a>(mgr: &'a PingManager, name: &str) -> &'a Ping {
    mgr.store().pings.get(name).unwrap()
}

fn context(badge: Option<&str>, login: &str, args: &[&str]) -> CommandContext {
    CommandContext {
        sender_id: "7".to_string(),
        sender_login: login.to_string(),
        badges: badge
            .map(|name| Badge { name: name.to_string(), version: "1".to_string() })
            .into_iter()
            .collect(),
        message_text: String::new(),
        trigger: "!p".to_string(),
        args: args.iter().map(|a| a.to_string()).collect(),
        reply_parent: None,
    }
}

#[test]
fn edit_template_updates_template() {
    let mut mgr = test_manager();
    mgr.edit_template("test", "New template {mentions}".to_string()).unwrap();
    assert_eq!(ping_of(&mgr, "test").template, "New template {mentions}");
}

#[test]
fn edit_template_preserves_members() {
    let mut mgr = test_manager();
    mgr.add_member("test", "alice").unwrap();
    mgr.add_member("test", "bob").unwrap();

    mgr.edit_template("test", "Updated {mentions}".to_string()).unwrap();

    let ping = ping_of(&mgr, "test");
    assert!(ping.members.contains(&"alice".to_string()));
    assert!(ping.members.contains(&"bob".to_string()));
    assert_eq!(ping.members.len(), 2);
}

#[test]
fn edit_template_nonexistent_ping_errors() {
    let mut mgr = test_manager();
    let result = mgr.edit_template("nope", "whatever".to_string());
    assert!(result.is_err());
    assert!(result.unwrap_err().contains("gibt es nicht"));
}

#[test]
fn create_ping_rejects_newline_in_template() {
    let mut mgr = empty_manager();
    let result = mgr.create_ping(
        "bad".to_string(),
        "Hey {mentions}\r\nPRIVMSG #other :pwned".to_string(),
        "admin".to_string(),
        None,
    );
    assert!(result.is_err());
    assert!(!mgr.store().pings.contains_key("bad"));
}

#[test]
fn edit_template_rejects_control_chars() {
    let mut mgr = test_manager();
    let result = mgr.edit_template("test", "Hey\x00injection".to_string());
    assert!(result.is_err());
    assert_eq!(ping_of(&mgr, "test").template, "Hey {mentions}!");
}

#[test]
fn create_ping_rejects_bad_names() {
    let mut mgr = test_manager();
    let mut create =
        |name: &str| mgr.create_ping(name.to_string(), "x".to_string(), "a".to_string(), None);
    assert_eq!(create("").unwrap_err(), "Ping-Name darf nicht leer sein");
    assert_eq!(
        create("a b").unwrap_err(),
        "Ping-Name darf nur Buchstaben, Zahlen, - und _ enthalten"
    );
    assert_eq!(
        create("äh").unwrap_err(),
        "Ping-Name darf nur Buchstaben, Zahlen, - und _ enthalten"
    );
    assert_eq!(create("test").unwrap_err(), "Ping \"test\" gibt es schon");
    assert!(create("Ok-1_2").is_ok());
}

#[test]
fn create_then_delete_leaves_nothing() {
    let mut mgr = test_manager();
    mgr.record_trigger("test", at(5));
    assert!(mgr.delete_ping("test").is_ok());
    assert!(mgr.store().pings.is_empty());
    assert_eq!(mgr.delete_ping("test").unwrap_err(), "Ping \"test\" gibt es nicht");
    // The cooldown is gone with the ping.
    mgr.create_ping("test".to_string(), "x".to_string(), "a".to_string(), None).unwrap();
    assert!(mgr.remaining_cooldown("test", Duration::from_secs(300), at(6)).is_none());
}

#[test]
fn members_join_and_leave_in_lower_case() {
    let mut mgr = test_manager();
    mgr.add_member("test", "Alice").unwrap();
    assert!(mgr.is_member("test", "alice"));
    assert!(!mgr.is_member("test", "Alice"));
    assert_eq!(mgr.add_member("test", "ALICE").unwrap_err(), "ALICE ist schon in \"test\"");
    assert_eq!(mgr.list_pings_for_user("alice"), vec!["test".to_string()]);
    mgr.remove_member("test", "aLiCe").unwrap();
    assert!(!mgr.is_member("test", "alice"));
    assert_eq!(mgr.remove_member("test", "alice").unwrap_err(), "alice ist nicht in \"test\"");
    assert!(mgr.list_pings_for_user("alice").is_empty());
    assert_eq!(mgr.add_member("nope", "a").unwrap_err(), "Ping \"nope\" gibt es nicht");
}

#[test]
fn loaded_members_count_once() {
    let members = vec!["a".to_string(), "b".to_string(), "a".to_string()];
    let ping = Ping::new("t".to_string(), &members, Some(5), "x".to_string());
    assert_eq!(ping.members, vec!["a", "b"]);
}

#[test]
fn ping_names_are_found_in_any_case() {
    let mgr = test_manager();
    assert!(mgr.ping_exists_ignore_case("TeSt"));
    assert!(!mgr.ping_exists_ignore_case("tes"));
}

#[test]
fn render_template_excludes_sender() {
    let mut mgr = test_manager();
    mgr.add_member("test", "alice").unwrap();
    mgr.add_member("test", "bob").unwrap();

    let result = mgr.render_template("test", "alice").unwrap();
    assert!(result.contains("@bob"), "should mention bob");
    assert!(!result.contains("@alice"), "should not mention sender alice");
}

#[test]
fn render_template_returns_none_when_sender_is_only_member() {
    let mut mgr = test_manager();
    mgr.add_member("test", "alice").unwrap();

    let result = mgr.render_template("test", "alice");
    assert!(result.is_none(), "should return None when only member is sender");
}

#[test]
fn render_template_excludes_sender_lowercase() {
    let mut mgr = test_manager();
    mgr.add_member("test", "alice").unwrap();
    mgr.add_member("test", "bob").unwrap();

    let result = mgr.render_template("test", "alice").unwrap();
    assert!(!result.contains("@alice"), "should exclude sender");
    assert!(result.contains("@bob"));
}

#[test]
fn render_template_fills_all_placeholders() {
    let mut mgr = empty_manager();
    mgr.create_ping(
        "g".to_string(),
        "{sender} ruft {mentions}, {mentions}!".to_string(),
        "a".to_string(),
        None,
    )
    .unwrap();
    for m in ["alice", "bob", "carol"] {
        mgr.add_member("g", m).unwrap();
    }
    assert_eq!(
        mgr.render_template("g", "bob").unwrap(),
        "bob ruft @alice @carol, @alice @carol!"
    );
}

#[test]
fn remaining_cooldown_returns_none_when_never_triggered() {
    let mut mgr = test_manager();
    mgr.add_member("test", "alice").unwrap();
    assert!(mgr.remaining_cooldown("test", Duration::from_secs(300), at(0)).is_none());
}

#[test]
fn remaining_cooldown_returns_some_when_on_cooldown() {
    let mut mgr = test_manager();
    mgr.add_member("test", "alice").unwrap();
    mgr.record_trigger("test", at(10));

    let remaining = mgr.remaining_cooldown("test", Duration::from_secs(300), at(11));
    assert!(remaining.is_some());
    let secs = remaining.unwrap().as_secs();
    assert!(secs > 0 && secs <= 300, "expected 1..=300, got {secs}");
    assert_eq!(secs, 299);
}

#[test]
fn remaining_cooldown_returns_none_for_nonexistent_ping() {
    let mgr = empty_manager();
    assert!(mgr.remaining_cooldown("nope", Duration::from_secs(300), at(0)).is_none());
}

#[test]
fn own_cooldown_beats_the_default() {
    let mut mgr = empty_manager();
    mgr.create_ping("x".to_string(), "t".to_string(), "a".to_string(), Some(10)).unwrap();
    mgr.record_trigger("x", at(0));
    assert_eq!(
        mgr.remaining_cooldown("x", Duration::from_secs(300), at(4)),
        Some(Duration::from_secs(6))
    );
    assert!(mgr.remaining_cooldown("x", Duration::from_secs(300), at(10)).is_none());
}

#[test]
fn try_record_trigger_is_atomic_across_consecutive_calls() {
    let mut mgr = test_manager();
    mgr.add_member("test", "alice").unwrap();
    mgr.add_member("test", "bob").unwrap();

    let first = mgr.try_record_trigger("test", "bob", Duration::from_secs(300), false, at(1));
    match first {
        TriggerDecision::Fire(rendered) => {
            assert!(rendered.contains("@alice"));
            assert!(!rendered.contains("@bob"));
        }
        other => panic!("expected Fire on first call, got {other:?}"),
    }

    let second = mgr.try_record_trigger("test", "bob", Duration::from_secs(300), false, at(1));
    match second {
        TriggerDecision::OnCooldown(remaining) => {
            assert!(remaining.as_secs() <= 300);
        }
        other => panic!("expected OnCooldown on second call, got {other:?}"),
    }

    let third = mgr.try_record_trigger("test", "bob", Duration::from_secs(300), false, at(301));
    assert!(matches!(third, TriggerDecision::Fire(_)));
}

#[test]
fn try_record_trigger_respects_membership() {
    let mut mgr = test_manager();
    mgr.add_member("test", "alice").unwrap();

    let decision =
        mgr.try_record_trigger("test", "stranger", Duration::from_secs(300), false, at(1));
    assert!(matches!(decision, TriggerDecision::Skip));

    let decision = mgr.try_record_trigger("test", "alice", Duration::from_secs(300), false, at(1));
    assert!(matches!(decision, TriggerDecision::Skip));
}

#[test]
fn try_record_trigger_public_allows_non_members() {
    let mut mgr = test_manager();
    mgr.add_member("test", "alice").unwrap();

    let decision =
        mgr.try_record_trigger("test", "stranger", Duration::from_secs(300), true, at(1));
    assert!(
        matches!(decision, TriggerDecision::Fire(_)),
        "public=true should allow non-members to fire, got {decision:?}"
    );
}

#[test]
fn admin_command_manages_pings() {
    let mut mgr = empty_manager();
    let hidden: Vec<String> = vec![];
    let mut run = |badge: Option<&str>, login: &str, args: &[&str]| {
        ping_admin::execute(&mut mgr, &context(badge, login, args), &hidden)
    };
    let m = Some("moderator");

    let r = run(m, "mod", &["create", "Raid", "Los", "{mentions}"]);
    assert_eq!(r.reply, "Ping \"raid\" erstellt Okayge");
    assert!(r.changed);
    let r = run(m, "mod", &["create", "raid", "x"]);
    assert_eq!(r.reply, "Ping \"raid\" gibt es schon FDM");
    assert!(!r.changed);
    assert_eq!(run(m, "mod", &["create", "raid"]).reply, "Nutze: !p create <name> <template>");
    assert_eq!(
        run(m, "mod", &["add", "raid", "@@Bob"]).reply,
        "bob zu \"raid\" hinzugefügt Okayge"
    );
    assert_eq!(run(m, "mod", &["add", "raid", "bob"]).reply, "bob ist schon in \"raid\" FDM");
    assert_eq!(run(None, "alice", &["join", "RAID"]).reply, "Hab ich gemacht Okayge");
    assert_eq!(run(None, "alice", &["join", "raid"]).reply, "Bist du schon FDM");
    assert_eq!(run(None, "alice", &["list"]).reply, "raid");
    assert_eq!(run(None, "carol", &["list"]).reply, "Keine Pings");
    assert_eq!(run(None, "carol", &["leave", "raid"]).reply, "Bist du nicht drin FDM");
    assert_eq!(
        run(None, "carol", &["leave", "nope"]).reply,
        "Ping \"nope\" gibt es nicht FDM"
    );
    assert_eq!(
        run(m, "mod", &["edit", "raid", "neu", "{mentions}"]).reply,
        "Ping \"raid\" updated SeemsGood"
    );
    assert_eq!(
        run(m, "mod", &["remove", "raid", "bob"]).reply,
        "bob aus \"raid\" entfernt Okayge"
    );
    assert_eq!(run(m, "mod", &["remove", "raid"]).reply, "Nutze: !p remove <name> <user>");
    assert_eq!(run(None, "alice", &["leave"]).reply, "Nutze: !p leave <name>");
    assert_eq!(run(m, "mod", &["delete", "Raid"]).reply, "Ping \"raid\" gelöscht Okayge");
    assert_eq!(run(m, "mod", &["delete"]).reply, "Nutze: !p delete <name>");
    assert_eq!(
        run(None, "x", &[]).reply,
        "Nutze: join, leave, list (oder create, delete, edit, add, remove als Mod)"
    );
}

#[test]
fn admin_command_is_gated() {
    let mut mgr = test_manager();
    for args in [
        vec!["create", "a", "b"],
        vec!["delete", "test"],
        vec!["edit", "test", "b"],
        vec!["add", "test", "b"],
        vec!["remove", "test", "b"],
    ] {
        let r = ping_admin::execute(&mut mgr, &context(Some("vip"), "eve", &args), &vec![]);
        assert_eq!(r.reply, "Das darfst du nicht FDM");
        assert!(!r.changed);
    }
    assert_eq!(ping_of(&mgr, "test").template, "Hey {mentions}!");
    let hidden = vec!["7".to_string()];
    let r = ping_admin::execute(&mut mgr, &context(None, "eve", &["delete", "test"]), &hidden);
    assert!(r.changed);
}

#[test]
fn trigger_words() {
    assert_eq!(parse_ping_trigger("!Raid"), Some("raid".to_string()));
    assert_eq!(parse_ping_trigger("!"), None);
    assert_eq!(parse_ping_trigger("raid"), None);
    let mgr = test_manager();
    assert!(ping_trigger::matches(&mgr, "!TEST"));
    assert!(!ping_trigger::matches(&mgr, "!tes"));
    assert!(!ping_trigger::matches(&mgr, "test"));
}

#[test]
fn trigger_command_answers() {
    let mut mgr = test_manager();
    mgr.add_member("test", "alice").unwrap();
    mgr.add_member("test", "bob").unwrap();
    let d = Duration::from_secs(300);
    match ping_trigger::execute(&mut mgr, "!Test", "bob", d, false, at(0)) {
        TriggerReply::Say(s) => assert_eq!(s, "Hey @alice!"),
        other => panic!("unexpected {other:?}"),
    }
    match ping_trigger::execute(&mut mgr, "!test", "alice", d, false, at(90)) {
        TriggerReply::Reply(s) => assert_eq!(s, "Bitte warte noch 3m 30s Waiting"),
        other => panic!("unexpected {other:?}"),
    }
    assert!(matches!(
        ping_trigger::execute(&mut mgr, "!test", "eve", d, false, at(900)),
        TriggerReply::Nothing
    ));
}

#[test]
fn edit_template_persists_to_disk() {
    let mut mgr = test_manager();
    mgr.edit_template("test", "Persisted {mentions}".to_string()).unwrap();

    // What is written is read again.
    let mgr2 = PingManager::load(&mgr.entries());
    assert_eq!(ping_of(&mgr2, "test").template, "Persisted {mentions}");
}

#[test]
fn pings_are_written_and_read_again() {
    let mut mgr = test_manager();
    mgr.add_member("test", "alice").unwrap();
    mgr.add_member("test", "bob").unwrap();
    mgr.create_ping("b".to_string(), "{mentions}".to_string(), "me".to_string(), Some(9)).unwrap();
    let wait = Duration::from_secs(60);
    assert!(matches!(
        mgr.try_record_trigger("test", "alice", wait, false, at(0)),
        TriggerDecision::Fire(_)
    ));
    assert!(mgr.remaining_cooldown("test", wait, at(1)).is_some());

    // A file may hold the pings in another order.
    let mut entries = mgr.entries();
    entries.reverse();
    let again = PingManager::load(&entries);
    for name in ["test", "b"] {
        let (old, new) = (ping_of(&mgr, name), ping_of(&again, name));
        assert_eq!(new.template, old.template);
        assert_eq!(new.members, old.members);
        assert_eq!(new.cooldown, old.cooldown);
        assert_eq!(new.created_by, old.created_by);
    }
    assert_eq!(again.entries().len(), 2);
    assert!(again.remaining_cooldown("test", wait, at(1)).is_none());
}

use twitch_1337::table::Table;
use twitch_1337::time::{Duration, Timestamp};
use twitch_1337::tracker_1337::{
    generate_stats_message, is_clanker, is_valid_1337_message, leaderboard_reply, meme_override,
    push_fastest, stats_message, update_leaderboard, wait_for_reminder, wait_for_session,
    wait_for_stats, PersonalBest, Session,
};

/// 2026-01-01T12:37:00Z, which is 13:37 in Berlin.
const MINUTE: i64 = 1_767_225_600 + 12 * 3600 + 37 * 60;

fn at(secs: i64, millis: u32) -> Timestamp {
    Timestamp::new(secs, millis * 1_000_000).unwrap()
}

fn names(list: &[&str]) -> Vec<String> {
    list.iter().map(|s| s.to_string()).collect()
}

#[test]
fn bots_do_not_count() {
    assert!(is_clanker("supibot"));
    assert!(is_clanker("streamelements"));
    assert!(!is_clanker("alice"));
    assert!(is_valid_1337_message("alice", "it is 1337 now"));
    assert!(is_valid_1337_message("alice", "DANKIES"));
    assert!(!is_valid_1337_message("alice", "dankies"));
    assert!(!is_valid_1337_message("potatbotat", "1337"));
}

#[test]
fn the_minute_is_watched() {
    let mut s = Session::new();
    s.observe("early", "1337", &at(MINUTE - 1, 999));
    s.observe("bob", "1337", &at(MINUTE, 250));
    s.observe("alice", "DANKIES", &at(MINUTE, 250));
    s.observe("bob", "1337", &at(MINUTE, 999));
    s.observe("slow", "1337", &at(MINUTE + 1, 0));
    s.observe("chatter", "hello", &at(MINUTE, 1));
    s.observe("late", "1337", &at(MINUTE + 60, 0));
    assert_eq!(s.count(), 3);
    assert_eq!(s.sorted_users(), vec!["alice", "bob", "slow"]);
    let (name, ms) = s.fastest().unwrap();
    assert!(name == "alice" || name == "bob");
    assert_eq!(ms, 250);
}

#[test]
fn nobody_is_fastest_after_a_second() {
    let mut s = Session::new();
    s.observe("slow", "1337", &at(MINUTE + 1, 0));
    assert!(s.fastest().is_none());
    let mut message = "x".to_string();
    push_fastest(&mut message, &s, &Table::new());
    assert_eq!(message, "x");
}

#[test]
fn records_are_kept() {
    let mut s = Session::new();
    s.observe("bob", "1337", &at(MINUTE, 250));
    s.observe("slow", "1337", &at(MINUTE + 30, 0));
    let mut board: Table<PersonalBest> = Table::new();
    assert_eq!(leaderboard_reply(&board), "Noch keine Einträge vorhanden");

    let mut message = "2".to_string();
    push_fastest(&mut message, &s, &board);
    assert_eq!(message, "2 | bob war mass schnellste mit 250ms - neuer Rekord!");
    update_leaderboard(&mut board, &s, 20_454);
    assert_eq!(board.len(), 1);
    assert_eq!(
        leaderboard_reply(&board),
        "Der schnellste 1337 ist bob mit 250ms am 01.01.2026"
    );

    // A slower day changes nothing.
    let mut t = Session::new();
    t.observe("bob", "1337", &at(MINUTE + 86_400, 300));
    let mut message = "1".to_string();
    push_fastest(&mut message, &t, &board);
    assert_eq!(message, "1 | bob war mass schnellste mit 300ms");
    update_leaderboard(&mut board, &t, 20_455);
    assert_eq!(board.get("bob").unwrap().ms, 250);
    assert_eq!(board.get("bob").unwrap().date, 20_454);
}

#[test]
fn memes_need_luck() {
    assert_eq!(meme_override(7, true, false, 2), Some("777 FORSEN 777"));
    assert_eq!(meme_override(7, false, true, 0), Some("6-7"));
    assert_eq!(meme_override(7, false, false, 0), None);
    assert_eq!(meme_override(6, true, false, 1), Some("6-7 ICANT"));
    assert_eq!(meme_override(3, true, false, 0), Some("3Head"));
    assert_eq!(meme_override(4, true, false, 1), Some("4Head"));
    assert_eq!(meme_override(5, true, false, 2), Some("5Head"));
    assert_eq!(meme_override(10, true, false, 0), Some("10/10 IGN"));
    assert_eq!(meme_override(13, true, false, 1), Some("13 monkaW"));
    assert_eq!(meme_override(8, true, true, 0), None);
}

#[test]
fn stats_for_every_count() {
    let none = names(&[]);
    assert_eq!(stats_message(0, &none, 0, 0, 0), "Erm");
    assert_eq!(stats_message(0, &none, 1, 0, 0), "fuh");
    let one = names(&["bob"]);
    assert_eq!(stats_message(1, &one, 0, 1, 0), "@bob zumindest einer uhh");
    assert!(stats_message(1, &one, 1, 0, 2).starts_with("War wohl zu viel verlangt "));
    let two = names(&["a", "b"]);
    assert_eq!(stats_message(2, &two, 0, 0, 0), "2 und nichtmal gnocci Sadding");
    let with = names(&["a", "gargoyletec"]);
    assert_eq!(stats_message(2, &with, 0, 0, 0), "2, geht besser Okayge");
    let four = names(&["a", "b", "c", "d"]);
    assert_eq!(stats_message(4, &four, 0, 0, 0), "3.6, nicht gut, nicht dramatisch");
    assert!(stats_message(4, &four, 1, 0, 1).starts_with("4, "));
    let six = names(&["a", "b", "c", "d", "e", "f"]);
    assert_eq!(stats_message(6, &six, 1, 0, 0), "6, gute Auslese peepoHappy");
    let nine = names(&["a", "b", "c", "d", "e", "f", "g", "h", "i"]);
    assert_eq!(stats_message(9, &nine, 0, 0, 0), "9, insane quota Pag");
}

#[test]
fn drawn_stats_are_among_the_possible_ones() {
    for _ in 0..20 {
        let m = generate_stats_message(0, &names(&[]), false, false);
        assert!(m == "Erm" || m == "fuh", "got {m}");
        let m = generate_stats_message(7, &names(&["a", "b", "c", "d", "e", "f", "g"]), true, false);
        assert!(m.starts_with("777 FORSEN 777"), "got {m}");
        let m = generate_stats_message(5, &names(&["a", "b", "c", "d", "e"]), false, false);
        assert!(m.starts_with("5, gute Auslese "), "got {m}");
    }
}

#[test]
fn the_session_is_timed() {
    // Ten seconds before 13:36 in Berlin.
    let early = at(MINUTE - 70, 0);
    assert_eq!(wait_for_session(&early), Some(Duration::from_secs(10)));
    assert_eq!(wait_for_reminder(&early, 0), Some(Duration::from_secs(40)));
    assert_eq!(wait_for_stats(&early, 1_000), Some(Duration::from_secs(129)));
    // Once the target minute is over, the next session is that of tomorrow.
    let late = at(MINUTE + 60, 0);
    assert_eq!(wait_for_session(&late), Some(Duration::from_secs(86_400 - 120)));
    assert_eq!(wait_for_reminder(&late, 0), None);
    assert_eq!(wait_for_stats(&late, 1), None);
}

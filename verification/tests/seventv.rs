use twitch_1337::seventv::{
    base_url, build_prompt_block, channel_url, collect_catalog, global_url, merge_emote_sets,
    GlossaryEmote, PromptCache, SevenTvEmote,
};
use twitch_1337::time::{Duration, Instant};

fn emote(name: &str) -> SevenTvEmote {
    SevenTvEmote { name: name.to_string() }
}

fn entry(name: &str, meaning: &str, usage: Option<&str>, avoid: Option<&str>) -> GlossaryEmote {
    GlossaryEmote {
        name: name.to_string(),
        meaning: meaning.to_string(),
        usage: usage.map(|s| s.to_string()),
        avoid: avoid.map(|s| s.to_string()),
    }
}

fn at(secs: u64) -> Instant {
    Instant { nanos: secs as u128 * 1_000_000_000 }
}

#[test]
fn merge_deduplicates_global_and_channel_emotes() {
    let global = vec![emote("KEKW")];
    let channel = vec![emote("KEKW")];

    let merged = merge_emote_sets(&global, &channel);

    assert_eq!(merged.len(), 1);
    assert!(merged.contains(&"KEKW".to_string()));
}

#[test]
fn prompt_contains_only_glossary_entries_available_in_catalog() {
    let glossary = vec![
        entry("KEKW", "lachen", Some("wenn etwas lustig ist"), Some("ernste Themen")),
        entry("Missing", "not available", None, None),
    ];
    let available = merge_emote_sets(&vec![emote("KEKW")], &vec![]);

    let prompt = build_prompt_block(&glossary, &available, 40).unwrap();

    assert!(prompt.contains("KEKW"));
    assert!(prompt.contains("meaning=lachen"));
    assert!(!prompt.contains("Missing"));
}

#[test]
fn prompt_respects_max_prompt_emotes() {
    let glossary = vec![entry("A", "first", None, None), entry("B", "second", None, None)];
    let available = merge_emote_sets(&vec![emote("A"), emote("B")], &vec![]);

    let prompt = build_prompt_block(&glossary, &available, 1).unwrap();

    assert!(prompt.contains("A"));
    assert!(!prompt.contains("B"));
}

#[test]
fn nothing_available_gives_no_prompt() {
    assert!(build_prompt_block(&vec![entry("A", "x", None, None)], &vec![], 5).is_none());
}

#[test]
fn either_catalog_is_enough() {
    assert_eq!(collect_catalog(&Some(vec![emote("A")]), &None), Some(vec!["A".to_string()]));
    assert_eq!(collect_catalog(&None, &Some(vec![emote("B")])), Some(vec!["B".to_string()]));
    assert_eq!(collect_catalog(&None, &None), None);
}

#[test]
fn prompts_are_refreshed_in_time() {
    let mut cache = PromptCache::new();
    let interval = Duration::from_secs(60);
    assert!(cache.is_stale(interval, at(0)));
    cache.refreshed(Some("p".to_string()), at(0));
    assert!(!cache.is_stale(interval, at(59)));
    assert!(cache.is_stale(interval, at(60)));
    cache.failed(at(60));
    assert_eq!(cache.prompt.as_deref(), Some("p"));
    assert!(!cache.is_stale(interval, at(61)));
}

#[test]
fn urls() {
    let base = base_url(&None);
    assert_eq!(base, "https://7tv.io/v3");
    assert_eq!(base_url(&Some("http://x/".to_string())), "http://x");
    assert_eq!(global_url(&base), "https://7tv.io/v3/emote-sets/global");
    assert_eq!(channel_url(&base, "12"), "https://7tv.io/v3/users/twitch/12");
}

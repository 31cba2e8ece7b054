use twitch_1337::llm::{ToolCall, ToolCallArgsError};
use twitch_1337::memory::legacy;
use twitch_1337::memory::legacy::LegacyMemory;
use twitch_1337::memory::scope::{Scope, UserRole};
use twitch_1337::memory::store::{
    build_key, sanitize_slug, Caps, DispatchContext, Memory, MemoryStore,
};
use twitch_1337::time::Timestamp;

const NOW: i64 = 1_767_225_600;
const DAY: i64 = 86_400;

fn at(secs: i64) -> Timestamp {
    Timestamp::new(secs, 0).unwrap()
}

fn now() -> Timestamp {
    at(NOW)
}

fn user(id: &str) -> Scope {
    Scope::User { subject_id: id.to_string() }
}

fn pref(id: &str) -> Scope {
    Scope::Pref { subject_id: id.to_string() }
}

fn mem(fact: &str, scope: Scope, source: &str, confidence: u8, t: Timestamp) -> Memory {
    Memory::new(fact.to_string(), scope, source.to_string(), confidence, t)
}

fn call(name: &str, arguments: &str) -> ToolCall {
    ToolCall {
        id: "c".to_string(),
        name: name.to_string(),
        arguments: arguments.to_string(),
        arguments_parse_error: None,
    }
}

fn broken_call(name: &str, error: &str, raw: &str) -> ToolCall {
    ToolCall {
        id: "c1".to_string(),
        name: name.to_string(),
        arguments: "null".to_string(),
        arguments_parse_error: Some(ToolCallArgsError {
            error: error.to_string(),
            raw: raw.to_string(),
        }),
    }
}

const CAPS_50: Caps = Caps { max_user: 50, max_lore: 50, max_pref: 50 };

fn caps_unbounded() -> Caps {
    Caps { max_user: 1000, max_lore: 1000, max_pref: 1000 }
}

/// Runs a call of the extractor, with the same score for every memory.
fn run(store: &mut MemoryStore, c: &ToolCall, id: &str, name: &str, role: UserRole) -> String {
    let scores: Vec<u64> = vec![1; store.memories.len()];
    let ctx = DispatchContext {
        speaker_id: id,
        speaker_username: name,
        speaker_role: role,
        caps: CAPS_50,
        scores: &scores,
        now: now(),
    };
    store.execute_tool_call(c, &ctx)
}

fn put(s: &mut MemoryStore, key: &str, m: Memory) {
    s.memories.insert(key.to_string(), m);
}

#[test]
fn memory_new_seeds_all_fields() {
    let mem = mem("alice plays Tarkov", user("1"), "alice", 70, now());
    assert_eq!(mem.confidence, 70);
    assert_eq!(mem.sources, vec!["alice".to_string()]);
    assert_eq!(mem.access_count, 0);
    assert_eq!(mem.created_at, mem.updated_at);
    assert_eq!(mem.created_at, mem.last_accessed);
}

#[test]
fn sanitize_slug_basic() {
    assert_eq!(sanitize_slug("Favorite Game"), "favorite-game");
    assert_eq!(sanitize_slug("alice's cat!!"), "alice-s-cat");
    assert_eq!(sanitize_slug("---weird---"), "weird");
    assert_eq!(sanitize_slug("emoji 🙂 drop"), "emoji-drop");
}

#[test]
fn build_key_per_scope() {
    assert_eq!(build_key(&user("42"), "plays-tarkov"), "user:42:plays-tarkov");
    assert_eq!(build_key(&Scope::Lore, "channel-emote"), "lore::channel-emote");
    assert_eq!(build_key(&pref("42"), "speaks-german"), "pref:42:speaks-german");
}

#[test]
fn store_default_is_v2_and_empty() {
    let s = MemoryStore::default();
    assert_eq!(s.version, 2);
    assert!(s.memories.is_empty());
    assert!(s.identities.is_empty());
}

#[test]
fn legacy_memories_migrate_to_v2() {
    let list = vec![LegacyMemory {
        key: "alice likes tarkov".to_string(),
        fact: "alice plays tarkov".to_string(),
        created_at: "2026-01-01T00:00:00Z".to_string(),
        updated_at: "2026-01-02T00:00:00Z".to_string(),
    }];
    let store = legacy::migrate(&list, at(NOW + 30 * DAY));
    assert_eq!(store.version, 2);
    assert_eq!(store.memories.len(), 1);
    let migrated_key = store.memories.key_at(0);
    assert!(migrated_key.starts_with("lore::"));
    let m = store.memories.get(migrated_key).unwrap();
    assert_eq!(m.scope, Scope::Lore);
    assert_eq!(m.sources, vec!["legacy".to_string()]);
    assert_eq!(m.confidence, 40);
    assert_eq!(m.fact, "alice plays tarkov");
    assert_eq!(m.created_at, at(NOW));
    assert_eq!(m.updated_at, at(NOW + DAY));
}

#[test]
fn legacy_keys_that_collide_are_numbered() {
    let old = |key: &str, fact: &str| LegacyMemory {
        key: key.to_string(),
        fact: fact.to_string(),
        created_at: "not a time".to_string(),
        updated_at: "not a time".to_string(),
    };
    let list = vec![old("a b", "one"), old("a-b", "two"), old("A B!", "three")];
    let store = legacy::migrate(&list, now());
    assert_eq!(store.memories.len(), 3);
    let m = store.memories.value_at(0);
    assert_eq!(m.created_at, now());
    let mut facts: Vec<String> =
        (0..3).map(|i| store.memories.value_at(i).fact.clone()).collect();
    facts.sort();
    assert_eq!(facts, vec!["one", "three", "two"]);
}

#[test]
fn legacy_texts() {
    let old = |key: &str, fact: &str| LegacyMemory {
        key: key.to_string(),
        fact: fact.to_string(),
        created_at: String::new(),
        updated_at: String::new(),
    };
    assert_eq!(legacy::format_for_prompt(&vec![]), None);
    assert_eq!(legacy::format_for_extraction(&vec![]), "(none)");
    let list = vec![old("b", "two"), old("a", "one")];
    assert_eq!(
        legacy::format_for_prompt(&list).unwrap(),
        "\n\n## Known facts\n- a: one\n- b: two"
    );
    assert_eq!(legacy::format_for_extraction(&list), "- a: one\n- b: two");
}

#[test]
fn upsert_identity_new() {
    let mut s = MemoryStore::default();
    assert!(s.upsert_identity("42", "alice", now()));
    assert_eq!(s.identities.get("42").unwrap().username, "alice");
    assert_eq!(s.identities.get("42").unwrap().updated_at, now());
}

#[test]
fn upsert_identity_rename_overwrites() {
    let mut s = MemoryStore::default();
    s.upsert_identity("42", "alice", now());
    assert!(s.upsert_identity("42", "alicette", now()));
    assert_eq!(s.identities.get("42").unwrap().username, "alicette");
    assert_eq!(s.identities.len(), 1);
}

#[test]
fn upsert_identity_same_username_returns_false() {
    let mut s = MemoryStore::default();
    s.upsert_identity("42", "alice", now());
    let t1 = at(NOW + 30);
    assert!(!s.upsert_identity("42", "alice", t1));
    assert_eq!(s.identities.get("42").unwrap().updated_at, t1);
}

#[test]
fn evict_tie_breaks_by_older_last_accessed() {
    let mut s = MemoryStore::default();
    let mut m_old = mem("f", Scope::Lore, "x", 70, now());
    m_old.last_accessed = at(NOW - 5 * DAY);
    let mut m_new = mem("f", Scope::Lore, "x", 70, now());
    m_new.last_accessed = at(NOW - 3 * DAY);
    put(&mut s, "lore::new", m_new);
    put(&mut s, "lore::old", m_old);
    let evicted = s.evict_lowest_in_scope("lore", &vec![7, 7]).unwrap();
    assert_eq!(evicted, "lore::old");
}

#[test]
fn evict_takes_the_lowest_score_of_the_scope() {
    let mut s = MemoryStore::default();
    put(&mut s, "lore::a", mem("f", Scope::Lore, "x", 70, now()));
    put(&mut s, "user:1:b", mem("f", user("1"), "x", 70, now()));
    put(&mut s, "lore::c", mem("f", Scope::Lore, "x", 70, now()));
    assert_eq!(s.evict_lowest_in_scope("lore", &vec![9, 1, 5]).unwrap(), "lore::c");
    assert_eq!(s.memories.len(), 2);
    assert_eq!(s.evict_lowest_in_scope("pref", &vec![9, 1]), None);
}

#[test]
fn execute_tool_call_surfaces_parse_error() {
    let mut store = MemoryStore::default();
    let c = broken_call(
        "save_memory",
        "expected `,` or `}` at line 1 column 17",
        "{\"slug\":\"k\" \"fact\":\"f\"}",
    );
    let result = run(&mut store, &c, "42", "42", UserRole::Regular);
    assert!(result.contains("not valid JSON"), "got: {result}");
    assert!(result.contains("save_memory"), "got: {result}");
    assert!(result.contains("{\"slug\":\"k\""), "got: {result}");
    assert!(store.memories.is_empty());
}

#[test]
fn execute_tool_call_missing_args_is_distinct_from_parse_error() {
    let mut store = MemoryStore::default();
    let result = run(&mut store, &call("save_memory", "null"), "42", "42", UserRole::Regular);
    assert!(result.contains("requires non-empty 'slug' and 'fact'"), "got: {result}");
    assert!(!result.contains("not valid JSON"), "got: {result}");
}

#[test]
fn save_memory_self_claim_creates_user_scope() {
    let mut store = MemoryStore::default();
    let c = call(
        "save_memory",
        r#"{"scope":"user","subject_id":"42","slug":"plays-tarkov","fact":"alice plays tarkov"}"#,
    );
    let out = run(&mut store, &c, "42", "alice", UserRole::Regular);
    assert!(out.contains("Saved"), "got: {out}");
    assert!(store.memories.contains_key("user:42:plays-tarkov"));
}

#[test]
fn save_memory_third_party_rejected() {
    let mut store = MemoryStore::default();
    let c = call(
        "save_memory",
        r#"{"scope":"user","subject_id":"99","slug":"drinks-coffee","fact":"bob drinks coffee"}"#,
    );
    let out = run(&mut store, &c, "42", "alice", UserRole::Regular);
    assert!(out.contains("not authorized"), "got: {out}");
    assert!(store.memories.is_empty());
}

#[test]
fn save_memory_pref_self_only_even_for_mod() {
    let mut store = MemoryStore::default();
    let c = call(
        "save_memory",
        r#"{"scope":"pref","subject_id":"99","slug":"language","fact":"speaks German"}"#,
    );
    let out = run(&mut store, &c, "42", "modguy", UserRole::Moderator);
    assert!(out.contains("not authorized"), "got: {out}");
}

#[test]
fn save_memory_collision_same_speaker_keeps_single_source() {
    let mut store = MemoryStore::default();
    put(
        &mut store,
        "user:42:plays-tarkov",
        mem("alice plays tarkov", user("42"), "alice", 70, at(NOW - 300)),
    );
    let c = call(
        "save_memory",
        r#"{"scope":"user","subject_id":"42","slug":"plays-tarkov","fact":"alice plays tarkov on wipes"}"#,
    );
    let _ = run(&mut store, &c, "42", "alice", UserRole::Regular);
    let mem = store.memories.get("user:42:plays-tarkov").unwrap();
    assert_eq!(mem.sources, vec!["alice".to_string()]);
    assert_eq!(mem.fact, "alice plays tarkov on wipes");
}

#[test]
fn save_memory_collision_appends_new_speaker_source() {
    let mut store = MemoryStore::default();
    put(
        &mut store,
        "user:42:plays-tarkov",
        mem("alice plays tarkov", user("42"), "alice", 70, now()),
    );
    let c = call(
        "save_memory",
        r#"{"scope":"user","subject_id":"42","slug":"plays-tarkov","fact":"alice plays tarkov"}"#,
    );
    let _ = run(&mut store, &c, "100", "modguy", UserRole::Moderator);
    let mem = store.memories.get("user:42:plays-tarkov").unwrap();
    assert_eq!(mem.sources, vec!["alice".to_string(), "modguy".to_string()]);
}

#[test]
fn save_memory_at_the_cap_evicts_one() {
    let mut store = MemoryStore::default();
    for i in 0..3 {
        put(
            &mut store,
            &format!("user:42:f{i}"),
            mem("f", user("42"), "alice", 70, now()),
        );
    }
    let scores = vec![5, 2, 9];
    let ctx = DispatchContext {
        speaker_id: "42",
        speaker_username: "alice",
        speaker_role: UserRole::Regular,
        caps: Caps { max_user: 3, max_lore: 3, max_pref: 3 },
        scores: &scores,
        now: now(),
    };
    let c = call(
        "save_memory",
        r#"{"scope":"user","subject_id":"42","slug":"new","fact":"something new"}"#,
    );
    let out = store.execute_tool_call(&c, &ctx);
    assert!(out.contains("Saved"), "got: {out}");
    assert_eq!(store.memories.len(), 3);
    assert!(!store.memories.contains_key("user:42:f1"));
    assert!(store.memories.contains_key("user:42:new"));
}

#[test]
fn drop_memory_removes() {
    let mut s = MemoryStore::default();
    put(&mut s, "lore::x", mem("x", Scope::Lore, "alice", 50, now()));
    let out = s.execute_consolidator_tool(&call("drop_memory", r#"{"key":"lore::x"}"#), now());
    assert!(out.contains("Dropped"));
    assert!(s.memories.is_empty());
}

#[test]
fn drop_memory_missing_key_is_noop_warn() {
    let mut s = MemoryStore::default();
    let out = s.execute_consolidator_tool(&call("drop_memory", r#"{"key":"missing"}"#), now());
    assert!(out.contains("No memory"));
}

#[test]
fn consolidator_parse_error_surfaced() {
    let mut s = MemoryStore::default();
    let out = s.execute_consolidator_tool(&broken_call("drop_memory", "boom", "{"), now());
    assert!(out.contains("not valid JSON"), "got: {out}");
}

#[test]
fn get_memory_returns_entry() {
    let mut s = MemoryStore::default();
    put(&mut s, "lore::x", mem("a fact", Scope::Lore, "alice", 65, now()));
    let out = s.execute_consolidator_tool(&call("get_memory", r#"{"key":"lore::x"}"#), now());
    assert!(out.contains("lore::x"), "got: {out}");
    assert!(out.contains("a fact"), "got: {out}");
    assert!(out.contains("confidence=65"), "got: {out}");
}

#[test]
fn get_memory_missing_key_returns_no_memory() {
    let mut s = MemoryStore::default();
    let out = s.execute_consolidator_tool(&call("get_memory", r#"{"key":"missing"}"#), now());
    assert!(out.contains("No memory"), "got: {out}");
}

#[test]
fn edit_memory_missing_key_returns_no_memory() {
    let mut s = MemoryStore::default();
    let c = call("edit_memory", r#"{"key":"missing","confidence_delta":10}"#);
    let out = s.execute_consolidator_tool(&c, now());
    assert!(out.contains("No memory"), "got: {out}");
}

#[test]
fn merge_memories_unions_sources_dedup() {
    let mut s = MemoryStore::default();
    put(
        &mut s,
        "user:1:a",
        Memory {
            fact: "plays tarkov".to_string(),
            scope: user("1"),
            sources: vec!["alice".to_string(), "bob".to_string()],
            confidence: 70,
            created_at: at(NOW - 5 * DAY),
            updated_at: at(NOW - 2 * DAY),
            last_accessed: at(NOW - DAY),
            access_count: 2,
        },
    );
    put(
        &mut s,
        "user:1:b",
        Memory {
            fact: "tarkov player".to_string(),
            scope: user("1"),
            sources: vec!["bob".to_string(), "carol".to_string()],
            confidence: 60,
            created_at: at(NOW - 10 * DAY),
            updated_at: at(NOW - DAY),
            last_accessed: now(),
            access_count: 5,
        },
    );
    let c = call(
        "merge_memories",
        r#"{"keys":["user:1:a","user:1:b"],"new_slug":"tarkov-player","new_fact":"plays Escape from Tarkov"}"#,
    );
    let out = s.execute_consolidator_tool(&c, now());
    assert!(out.contains("Merged"), "got: {out}");
    let merged = s.memories.get("user:1:tarkov-player").unwrap();
    assert_eq!(merged.sources, vec!["alice", "bob", "carol"]);
    // max(70, 60) + 5 × (distinct_after=3 − max_single=2) = 75
    assert_eq!(merged.confidence, 75);
    assert_eq!(merged.access_count, 7);
    assert_eq!(merged.last_accessed, now());
    assert_eq!(merged.created_at, at(NOW - 10 * DAY));
    assert!(!s.memories.contains_key("user:1:a"));
    assert!(!s.memories.contains_key("user:1:b"));
}

#[test]
fn merge_memories_rejects_scope_mismatch() {
    let mut s = MemoryStore::default();
    put(&mut s, "user:1:a", mem("x", user("1"), "alice", 70, now()));
    put(&mut s, "lore::b", mem("y", Scope::Lore, "alice", 70, now()));
    let c = call(
        "merge_memories",
        r#"{"keys":["user:1:a","lore::b"],"new_slug":"mix","new_fact":"mixed"}"#,
    );
    let out = s.execute_consolidator_tool(&c, now());
    assert!(out.contains("scope mismatch"), "got: {out}");
    assert!(s.memories.contains_key("user:1:a"));
    assert!(s.memories.contains_key("lore::b"));
}

#[test]
fn merge_memories_rejects_subject_mismatch() {
    let mut s = MemoryStore::default();
    put(&mut s, "user:1:a", mem("x", user("1"), "alice", 70, now()));
    put(&mut s, "user:2:b", mem("y", user("2"), "alice", 70, now()));
    let c = call(
        "merge_memories",
        r#"{"keys":["user:1:a","user:2:b"],"new_slug":"mix","new_fact":"mixed"}"#,
    );
    let out = s.execute_consolidator_tool(&c, now());
    assert!(out.contains("subject_id mismatch"), "got: {out}");
    // originals untouched on reject
    assert!(s.memories.contains_key("user:1:a"));
    assert!(s.memories.contains_key("user:2:b"));
}

#[test]
fn edit_memory_confidence_delta_applied_clamped() {
    let mut s = MemoryStore::default();
    put(&mut s, "lore::x", mem("f", Scope::Lore, "alice", 50, now()));
    let c = call("edit_memory", r#"{"key":"lore::x","confidence_delta":30}"#);
    let _ = s.execute_consolidator_tool(&c, now());
    assert_eq!(s.memories.get("lore::x").unwrap().confidence, 80);
    let _ = s.execute_consolidator_tool(&c, now());
    assert_eq!(s.memories.get("lore::x").unwrap().confidence, 100);
}

#[test]
fn edit_memory_confidence_delta_out_of_range_rejected() {
    let mut s = MemoryStore::default();
    put(&mut s, "lore::x", mem("f", Scope::Lore, "alice", 50, now()));
    let c = call("edit_memory", r#"{"key":"lore::x","confidence_delta":99}"#);
    let out = s.execute_consolidator_tool(&c, now());
    assert!(out.contains("out of range"), "got: {out}");
    assert_eq!(s.memories.get("lore::x").unwrap().confidence, 50);
}

#[test]
fn edit_memory_drop_source_removes() {
    let mut s = MemoryStore::default();
    let mut m = mem("f", Scope::Lore, "alice", 50, now());
    m.sources.push("bob".to_string());
    put(&mut s, "lore::x", m);
    let c = call("edit_memory", r#"{"key":"lore::x","drop_source":"bob"}"#);
    let _ = s.execute_consolidator_tool(&c, now());
    assert_eq!(s.memories.get("lore::x").unwrap().sources, vec!["alice".to_string()]);
}

#[test]
fn edit_memory_fact_too_long_rejected() {
    let mut s = MemoryStore::default();
    put(&mut s, "lore::x", mem("f", Scope::Lore, "alice", 50, now()));
    let long = "a".repeat(600);
    let c = call("edit_memory", &format!(r#"{{"key":"lore::x","fact":"{long}"}}"#));
    let out = s.execute_consolidator_tool(&c, now());
    assert!(out.contains("too long"));
}

#[test]
fn format_for_prompt_does_not_mutate_store() {
    let t0 = at(NOW - 3600);
    let mut s = MemoryStore::default();
    put(&mut s, "user:1:likes-cats", mem("alice likes cats", user("1"), "alice", 70, t0));
    s.upsert_identity("1", "alice", t0);

    let snapshot_before = s.memories.clone();
    let _ = s.format_for_prompt(&caps_unbounded());
    assert_eq!(s.memories, snapshot_before, "render must not mutate");
}

#[test]
fn format_for_prompt_empty_returns_none() {
    let s = MemoryStore::default();
    assert!(s.format_for_prompt(&caps_unbounded()).is_none());
}

#[test]
fn format_for_prompt_groups_and_resolves_usernames() {
    let mut s = MemoryStore::default();
    s.upsert_identity("1", "alice", now());
    s.upsert_identity("2", "bob", now());
    put(&mut s, "user:1:likes-cats", mem("likes cats", user("1"), "alice", 70, now()));
    put(&mut s, "user:2:is-pilot", mem("is a pilot", user("2"), "bob", 85, now()));
    put(&mut s, "pref:1:call-me-al", mem("address as Al", pref("1"), "alice", 70, now()));
    put(
        &mut s,
        "lore::channel-vibe",
        mem("channel is German-friendly", Scope::Lore, "mod", 90, now()),
    );

    let out = s.format_for_prompt(&caps_unbounded()).unwrap();

    let lore_idx = out.find("### Channel lore").expect("lore section");
    let about_alice_idx = out.find("### About alice").expect("about-alice section");
    let about_bob_idx = out.find("### About bob").expect("about-bob section");
    let pref_alice_idx = out.find("### alice's preferences").expect("pref section");
    assert!(lore_idx < about_alice_idx);
    assert!(about_alice_idx < about_bob_idx, "users sorted alphabetically");
    assert!(about_bob_idx < pref_alice_idx);

    assert!(out.contains("- likes cats (conf 70)"));
    assert!(out.contains("- is a pilot (conf 85)"));
    assert!(out.contains("- channel is German-friendly (conf 90)"));
    assert!(out.contains("- address as Al (conf 70)"));

    let mut s2 = MemoryStore::default();
    put(&mut s2, "user:99:x", mem("foo", user("99"), "ghost", 50, now()));
    let out2 = s2.format_for_prompt(&caps_unbounded()).unwrap();
    assert!(out2.contains("### About user 99"), "got: {out2}");
}

#[test]
fn format_for_prompt_is_deterministic_across_calls() {
    let mut s = MemoryStore::default();
    s.upsert_identity("1", "alice", now());
    for i in 0..10u32 {
        put(
            &mut s,
            &format!("user:1:fact-{i}"),
            mem(&format!("fact {i}"), user("1"), "alice", 70, now()),
        );
    }
    let a = s.format_for_prompt(&caps_unbounded()).unwrap();
    let b = s.format_for_prompt(&caps_unbounded()).unwrap();
    let c = s.format_for_prompt(&caps_unbounded()).unwrap();
    assert_eq!(a, b);
    assert_eq!(b, c);
}

#[test]
fn format_for_prompt_respects_per_scope_caps() {
    let mut s = MemoryStore::default();
    s.upsert_identity("1", "alice", now());
    for (i, conf) in [10u8, 90, 50, 30, 70].iter().enumerate() {
        put(
            &mut s,
            &format!("user:1:f{i}"),
            mem(&format!("fact {i}"), user("1"), "alice", *conf, now()),
        );
    }
    let caps = Caps { max_user: 2, max_lore: 1000, max_pref: 1000 };
    let out = s.format_for_prompt(&caps).unwrap();

    assert!(out.contains("(conf 90)"));
    assert!(out.contains("(conf 70)"));
    assert!(!out.contains("(conf 50)"));
    assert!(!out.contains("(conf 30)"));
    assert!(!out.contains("(conf 10)"));
}

#[test]
fn format_for_prompt_cap_is_per_scope_not_per_user_bucket() {
    let mut s = MemoryStore::default();
    s.upsert_identity("1", "alice", now());
    s.upsert_identity("2", "bob", now());
    for (slug, subj, conf) in [
        ("a", "1", 90u8),
        ("b", "1", 60),
        ("c", "1", 40),
        ("d", "2", 85),
        ("e", "2", 55),
        ("f", "2", 30),
    ] {
        put(
            &mut s,
            &format!("user:{subj}:{slug}"),
            mem(
                &format!("fact {slug}"),
                user(subj),
                if subj == "1" { "alice" } else { "bob" },
                conf,
                now(),
            ),
        );
    }
    let caps = Caps { max_user: 2, max_lore: 1000, max_pref: 1000 };
    let out = s.format_for_prompt(&caps).unwrap();
    assert!(out.contains("(conf 90)"), "got: {out}");
    assert!(out.contains("(conf 85)"), "got: {out}");
    assert!(!out.contains("(conf 60)"), "got: {out}");
    assert!(!out.contains("(conf 55)"), "got: {out}");
    assert!(!out.contains("(conf 40)"), "got: {out}");
    assert!(!out.contains("(conf 30)"), "got: {out}");
    assert!(out.contains("### About alice"), "got: {out}");
    assert!(out.contains("### About bob"), "got: {out}");
}

#[test]
fn format_for_prompt_disambiguates_username_collision() {
    let mut s = MemoryStore::default();
    s.upsert_identity("1", "alice", now());
    s.upsert_identity("5", "alice", now());
    put(&mut s, "user:1:secret", mem("hates spinach", user("1"), "alice", 80, now()));
    put(&mut s, "user:5:secret", mem("loves spinach", user("5"), "alice", 80, now()));
    let out = s.format_for_prompt(&caps_unbounded()).unwrap();
    assert!(out.contains("(user 1)"), "got: {out}");
    assert!(out.contains("(user 5)"), "got: {out}");
    assert!(out.contains("hates spinach"), "got: {out}");
    assert!(out.contains("loves spinach"), "got: {out}");
    assert!(
        !out.contains("\n### About alice\n"),
        "plain header must not appear on collision, got: {out}"
    );
}

#[test]
fn format_for_prompt_byte_identical_across_unrelated_clock_motion() {
    let build = |t: Timestamp| {
        let mut s = MemoryStore::default();
        s.upsert_identity("1", "alice", t);
        put(&mut s, "user:1:likes-cats", mem("likes cats", user("1"), "alice", 80, t));
        put(&mut s, "lore::vibe", mem("channel is chill", Scope::Lore, "mod", 90, t));
        s
    };
    let s0 = build(at(NOW - DAY));
    let s1 = build(now());
    let caps = caps_unbounded();
    assert_eq!(
        s0.format_for_prompt(&caps),
        s1.format_for_prompt(&caps),
        "render must not encode timestamps"
    );
}

#[test]
fn get_memories_filters_by_scope_and_subject() {
    let mut s = MemoryStore::default();
    put(&mut s, "user:1:a", mem("alice fact", user("1"), "alice", 70, now()));
    put(&mut s, "user:2:b", mem("bob fact", user("2"), "bob", 70, now()));
    put(&mut s, "lore::c", mem("channel fact", Scope::Lore, "mod", 90, now()));
    let c = call("get_memories", r#"{"scope":"user","subject_id":"1"}"#);
    let out = run(&mut s, &c, "1", "1", UserRole::Regular);
    assert!(out.contains("user:1:a"), "got: {out}");
    assert!(!out.contains("user:2:b"), "got: {out}");
    assert!(!out.contains("lore::c"), "got: {out}");
}

#[test]
fn unknown_tools_are_named() {
    let mut s = MemoryStore::default();
    let out = run(&mut s, &call("drop_memory", "{}"), "1", "1", UserRole::Broadcaster);
    assert!(out.contains("drop_memory"), "got: {out}");
    assert!(s.memories.is_empty());
}

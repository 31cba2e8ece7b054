use twitch_1337::llm::{ToolCall, ToolChatCompletionResponse};
use twitch_1337::memory::consolidation::{
    corroboration_boost, curated_scopes, hard_drop_candidates, prefilter, scope_messages,
    ScopePass, Tally, MAX_ROUNDS,
};
use twitch_1337::memory::extraction::{
    extraction_messages, snapshot_for_extraction, ExtractionContext,
};
use twitch_1337::memory::scope::{Scope, UserRole};
use twitch_1337::memory::store::{Memory, MemoryStore};
use twitch_1337::memory::tools::{consolidator_tools, extractor_tools};
use twitch_1337::llm::ToolDefinition;
use twitch_1337::time::Timestamp;

const NOW: i64 = 1_767_225_600;
const DAY: i64 = 86_400;

fn at(secs: i64) -> Timestamp {
    Timestamp::new(secs, 0).unwrap()
}

fn now() -> Timestamp {
    at(NOW)
}

fn user(id: &str) -> Scope {
    Scope::User { subject_id: id.to_string() }
}

fn pref(id: &str) -> Scope {
    Scope::Pref { subject_id: id.to_string() }
}

fn mem(fact: &str, scope: Scope, source: &str, confidence: u8) -> Memory {
    Memory::new(fact.to_string(), scope, source.to_string(), confidence, now())
}

fn m_with(conf: u8, stale_days: i64, sources: &[&str]) -> Memory {
    Memory {
        fact: "x".to_string(),
        scope: Scope::Lore,
        sources: sources.iter().map(|s| s.to_string()).collect(),
        confidence: conf,
        created_at: now(),
        updated_at: now(),
        last_accessed: at(NOW - stale_days * DAY),
        access_count: 0,
    }
}

fn put(s: &mut MemoryStore, key: &str, m: Memory) {
    s.memories.insert(key.to_string(), m);
}

#[test]
fn hard_drop_catches_low_conf_stale() {
    let mut s = MemoryStore::default();
    put(&mut s, "a", m_with(5, 90, &["alice"]));
    put(&mut s, "b", m_with(50, 90, &["alice"]));
    put(&mut s, "c", m_with(5, 30, &["alice"]));
    let drops = hard_drop_candidates(&s, now());
    assert_eq!(drops.len(), 1);
    assert_eq!(drops[0].0, "a");
}

#[test]
fn hard_drops_begin_after_sixty_days() {
    let mut s = MemoryStore::default();
    let mut older = m_with(5, 60, &["alice"]);
    older.last_accessed = at(NOW - 60 * DAY - DAY / 2);
    put(&mut s, "older", older);
    put(&mut s, "exact", m_with(5, 60, &["alice"]));
    let drops = hard_drop_candidates(&s, now());
    assert_eq!(drops, vec![("older".to_string(), "confidence=5 stale_days=60".to_string())]);
}

#[test]
fn corroboration_boost_ignores_sentinels() {
    let m = m_with(70, 0, &["alice", "legacy", "__identity__"]);
    assert_eq!(corroboration_boost(&m), 70);
}

#[test]
fn corroboration_boost_rewards_multiple_sources() {
    let m = m_with(70, 0, &["alice", "bob", "carol"]);
    assert_eq!(corroboration_boost(&m), 80);
}

#[test]
fn corroboration_boost_clamps_at_100() {
    let m = m_with(95, 0, &["a", "b", "c", "d", "e", "f"]);
    assert_eq!(corroboration_boost(&m), 100);
}

#[test]
fn prefilter_drops_and_boosts() {
    let mut s = MemoryStore::default();
    put(&mut s, "lore::a", m_with(5, 90, &["alice"]));
    put(&mut s, "lore::b", m_with(70, 0, &["alice", "bob"]));
    assert_eq!(prefilter(&mut s, now()), 1);
    assert!(!s.memories.contains_key("lore::a"));
    assert_eq!(s.memories.get("lore::b").unwrap().confidence, 75);
}

fn merge_call() -> ToolCall {
    ToolCall {
        id: "c".to_string(),
        name: "merge_memories".to_string(),
        arguments: r#"{"keys":["user:1:a","user:1:b"],"new_slug":"tarkov","new_fact":"plays Tarkov"}"#
            .to_string(),
        arguments_parse_error: None,
    }
}

#[test]
fn run_consolidation_applies_scripted_merge() {
    let mut s = MemoryStore::default();
    put(&mut s, "user:1:a", mem("plays tarkov", user("1"), "alice", 70));
    put(&mut s, "user:1:b", mem("tarkov player", user("1"), "bob", 60));
    let mut tally = Tally { merged: 0, dropped: 0, edited: 0 };

    assert!(scope_messages(&s, "user").is_some());
    assert!(scope_messages(&s, "lore").is_none());
    let mut pass = ScopePass::new();
    pass.on_response(
        &mut s,
        ToolChatCompletionResponse::ToolCalls {
            calls: vec![merge_call()],
            reasoning_content: None,
        },
        &mut tally,
        now(),
    );
    assert!(!pass.done);
    assert_eq!(pass.prior_rounds.len(), 1);
    assert_eq!(pass.prior_rounds[0].results[0].tool_call_id, "c");
    pass.on_response(
        &mut s,
        ToolChatCompletionResponse::Message("done".to_string()),
        &mut tally,
        now(),
    );
    assert!(pass.done);

    assert!(s.memories.contains_key("user:1:tarkov"));
    assert!(!s.memories.contains_key("user:1:a"));
    assert!(!s.memories.contains_key("user:1:b"));
    assert_eq!(tally.merged, 1);
}

#[test]
fn scopes_are_curated_in_order() {
    assert_eq!(curated_scopes(), vec!["user", "lore", "pref"]);
}

#[test]
fn consolidation_stops_after_its_rounds() {
    let mut s = MemoryStore::default();
    put(&mut s, "lore::x", mem("x", Scope::Lore, "alice", 50));
    let mut tally = Tally { merged: 0, dropped: 0, edited: 0 };
    let mut pass = ScopePass::new();
    let mut rounds = 0;
    while !pass.done {
        let call = ToolCall {
            id: "g".to_string(),
            name: "get_memory".to_string(),
            arguments: r#"{"key":"lore::x"}"#.to_string(),
            arguments_parse_error: None,
        };
        pass.on_response(
            &mut s,
            ToolChatCompletionResponse::ToolCalls { calls: vec![call], reasoning_content: None },
            &mut tally,
            now(),
        );
        rounds += 1;
    }
    assert_eq!(rounds, MAX_ROUNDS);
    assert_eq!(rounds, 5);
}

fn tool_names(tools: Vec<ToolDefinition>) -> Vec<String> {
    tools.into_iter().map(|t| t.name).collect()
}

#[test]
fn extractor_tools_surface() {
    let names = tool_names(extractor_tools());
    assert_eq!(names, vec!["save_memory", "get_memories"]);
    assert!(!names.iter().any(|n| n == "delete_memory"));
    assert!(!names.iter().any(|n| n == "merge_memories"));
    assert!(!names.iter().any(|n| n == "edit_memory"));
    assert!(!names.iter().any(|n| n == "drop_memory"));
    assert!(!names.iter().any(|n| n == "web_search"));
    assert!(!names.iter().any(|n| n == "fetch_url"));
}

#[test]
fn consolidator_tools_surface() {
    let names = tool_names(consolidator_tools());
    assert_eq!(names, vec!["merge_memories", "drop_memory", "edit_memory", "get_memory"]);
    assert!(!names.iter().any(|n| n == "save_memory"));
    assert!(!names.iter().any(|n| n == "web_search"));
    assert!(!names.iter().any(|n| n == "fetch_url"));
}

fn required_of(tools: Vec<ToolDefinition>, name: &str) -> Vec<String> {
    let tool = tools.into_iter().find(|t| t.name == name).expect("tool must be present");
    let parameters: serde_json::Value =
        serde_json::from_str(&tool.parameters).expect("parameters are JSON");
    parameters["required"]
        .as_array()
        .expect("required array")
        .iter()
        .filter_map(|v| v.as_str())
        .map(|s| s.to_string())
        .collect()
}

#[test]
fn extractor_tool_parameters_require_scope_slug_fact() {
    let required = required_of(extractor_tools(), "save_memory");
    assert!(required.contains(&"scope".to_string()));
    assert!(required.contains(&"slug".to_string()));
    assert!(required.contains(&"fact".to_string()));
}

#[test]
fn consolidator_tool_parameters_merge_required_fields() {
    let required = required_of(consolidator_tools(), "merge_memories");
    assert!(required.contains(&"keys".to_string()));
    assert!(required.contains(&"new_slug".to_string()));
    assert!(required.contains(&"new_fact".to_string()));
}

#[test]
fn consolidator_tool_parameters_edit_required_key() {
    let required = required_of(consolidator_tools(), "edit_memory");
    assert!(required.contains(&"key".to_string()));
}

#[test]
fn snapshot_filters_other_users_facts() {
    let mut store = MemoryStore::default();
    put(&mut store, "user:42:plays-tarkov", mem("alice plays tarkov", user("42"), "alice", 70));
    put(&mut store, "user:99:drinks-coffee", mem("bob drinks coffee", user("99"), "bob", 70));
    put(&mut store, "lore::channel-emote", mem("PogChamp", Scope::Lore, "mod", 90));
    put(&mut store, "pref:42:language", mem("speaks german", pref("42"), "alice", 70));
    put(&mut store, "pref:99:language", mem("speaks english", pref("99"), "bob", 70));

    let snap = snapshot_for_extraction(&store, "42");
    assert!(snap.contains("user:42:plays-tarkov"), "got: {snap}");
    assert!(snap.contains("pref:42:language"), "got: {snap}");
    assert!(snap.contains("lore::channel-emote"), "got: {snap}");
    assert!(!snap.contains("user:99"), "got: {snap}");
    assert!(!snap.contains("pref:99"), "got: {snap}");
}

#[test]
fn snapshot_empty_store_returns_placeholder() {
    let store = MemoryStore::default();
    assert_eq!(snapshot_for_extraction(&store, "42"), "(none relevant)");
}

#[test]
fn extraction_shows_the_exchange() {
    let store = MemoryStore::default();
    let ctx = ExtractionContext {
        speaker_id: "42".to_string(),
        speaker_username: "alice".to_string(),
        speaker_role: UserRole::Moderator,
        user_message: "I play chess".to_string(),
        ai_response: "Nice".to_string(),
    };
    let messages = extraction_messages(&ctx, &store);
    assert_eq!(messages.len(), 2);
    assert_eq!(messages[0].role, "system");
    assert_eq!(messages[1].role, "user");
    for part in ["42", "alice", "I play chess", "Nice", "(none relevant)"] {
        assert!(messages[1].content.contains(part), "got: {}", messages[1].content);
    }
}

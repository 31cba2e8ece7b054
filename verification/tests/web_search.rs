use serde_json::Value;
use twitch_1337::llm::{ToolCall, ToolCallArgsError};
use twitch_1337::time::{Duration, Instant};
use twitch_1337::web_search::cache::TtlCache;
use twitch_1337::web_search::client::{
    extract_readable_text, is_blocked_host_literal, is_blocked_ip, is_html_content_type,
    is_too_large, parse_dotted, plan_fetch, plan_parts, read_page, readable_from,
    resolves_to_blocked_ip, search_results, truncate_chars, IpAddress, SearchResult, SearxResult,
    UrlParts,
};
use twitch_1337::web_search::executor::{
    fetch_failed, normalize_query, normalize_url, search_failed, WebStep, WebToolExecutor,
};
use twitch_1337::web_search::tools::ai_tools;

fn at_millis(ms: u64) -> Instant {
    Instant { nanos: ms as u128 * 1_000_000 }
}

fn call(name: &str, arguments: &str) -> ToolCall {
    ToolCall {
        id: "c1".to_string(),
        name: name.to_string(),
        arguments: arguments.to_string(),
        arguments_parse_error: None,
    }
}

fn test_executor() -> WebToolExecutor {
    WebToolExecutor::new(5, Duration::from_secs(300), 32)
}

fn answer_of(step: WebStep) -> String {
    match step {
        WebStep::Answer(text) => text,
        other => panic!("expected an answer, got {other:?}"),
    }
}

fn host(s: &str) -> Option<String> {
    Some(s.to_string())
}

#[test]
fn rejects_unknown_tool_name() {
    let mut executor = test_executor();
    let content = answer_of(executor.begin(&call("save_memory", "{}"), at_millis(0)));
    assert!(content.contains("\"unknown_tool\""), "{}", content);
}

#[test]
fn surfaces_arguments_parse_error() {
    let mut executor = test_executor();
    let c = ToolCall {
        id: "c1".to_string(),
        name: "web_search".to_string(),
        arguments: "null".to_string(),
        arguments_parse_error: Some(ToolCallArgsError {
            error: "expected value".to_string(),
            raw: "{bad".to_string(),
        }),
    };
    let content = answer_of(executor.begin(&c, at_millis(0)));
    assert!(content.contains("\"invalid_arguments_json\""), "{}", content);
}

#[test]
fn ttl_cache_evicts_oldest_when_capacity_reached() {
    let mut cache = TtlCache::new(Duration::from_secs(300), 2);
    cache.insert("a".to_string(), 1, at_millis(0));
    cache.insert("b".to_string(), 2, at_millis(0));
    cache.insert("c".to_string(), 3, at_millis(0));

    assert_eq!(cache.get("a", at_millis(0)), None);
    assert_eq!(cache.get("b", at_millis(0)), Some(&2));
    assert_eq!(cache.get("c", at_millis(0)), Some(&3));
}

#[test]
fn ttl_cache_expires_entries() {
    let mut cache = TtlCache::new(Duration::from_millis(5), 10);
    cache.insert("a".to_string(), 1, at_millis(0));

    assert_eq!(cache.get("a", at_millis(5)), Some(&1));
    assert_eq!(cache.get("a", at_millis(10)), None);
}

#[test]
fn ttl_cache_replaces_in_place() {
    let mut cache = TtlCache::new(Duration::from_secs(300), 2);
    cache.insert("a".to_string(), 1, at_millis(0));
    cache.insert("b".to_string(), 2, at_millis(0));
    cache.insert("a".to_string(), 9, at_millis(1));
    cache.insert("c".to_string(), 3, at_millis(2));
    // "a" was written again, so "b" is now the oldest.
    assert_eq!(cache.get("b", at_millis(2)), None);
    assert_eq!(cache.get("a", at_millis(2)), Some(&9));
}

#[test]
fn ttl_cache_counts_other_keys_since_the_last_insert() {
    let mut cache = TtlCache::new(Duration::from_secs(1), 2);
    cache.insert("a".to_string(), 1, at_millis(0));
    cache.insert("b".to_string(), 2, at_millis(10));
    cache.insert("b".to_string(), 3, at_millis(20));
    // One other key since, however often it was written.
    assert_eq!(cache.get("a", at_millis(30)), Some(&1));
    cache.insert("a".to_string(), 4, at_millis(900));
    // "a" is renewed and outlives "b".
    assert_eq!(cache.get("b", at_millis(1_021)), None);
    assert_eq!(cache.get("a", at_millis(1_900)), Some(&4));
    assert_eq!(cache.get("a", at_millis(1_901)), None);
    let mut none = TtlCache::new(Duration::from_secs(1), 0);
    none.insert("a".to_string(), 1, at_millis(0));
    assert_eq!(none.get("a", at_millis(0)), None);
}

#[test]
fn blocks_localhost_and_private_ips() {
    assert!(is_blocked_host_literal(&host("localhost")));
    assert!(is_blocked_host_literal(&host("127.0.0.1")));
    assert!(is_blocked_host_literal(&host("10.0.0.2")));
    assert!(!is_blocked_host_literal(&host("example.com")));

    assert!(plan_fetch("http://localhost/test").is_err());
    assert!(plan_fetch("http://127.0.0.1/test").is_err());
    assert!(plan_fetch("http://10.0.0.2/test").is_err());
    assert!(plan_fetch("https://example.com/test").is_ok());
}

#[test]
fn urls_are_planned() {
    let plan = plan_fetch("https://Example.com/a?b=c").unwrap();
    assert_eq!(plan.host, "example.com");
    assert_eq!(plan.port, 443);
    assert!(plan.look_up);
    assert_eq!(plan_fetch("http://example.com:8080/").unwrap().port, 8080);
    assert_eq!(plan_fetch("http://example.com/").unwrap().port, 80);
    assert!(!plan_fetch("http://8.8.8.8/").unwrap().look_up);
    assert_eq!(plan_fetch("ftp://example.com/").unwrap_err(), "Unsupported URL scheme: ftp");
    assert_eq!(plan_fetch("no url").unwrap_err(), "Invalid URL");
    assert!(plan_parts(&None).is_err());
    let parts = UrlParts { scheme: "http".to_string(), host: host("::1x"), port: Some(80) };
    assert!(plan_parts(&Some(parts)).unwrap().look_up);
}

#[test]
fn detects_html_like_content_types() {
    assert!(is_html_content_type("text/html"));
    assert!(is_html_content_type("text/html; charset=utf-8"));
    assert!(is_html_content_type("application/xhtml+xml"));
    assert!(is_html_content_type("application/xml"));
    assert!(!is_html_content_type("application/json"));
}

#[test]
fn blocks_dns_resolution_to_loopback() {
    let loopback = IpAddress::V4(0x7f00_0001);
    let public = IpAddress::V4(0x0808_0808);
    assert!(resolves_to_blocked_ip(&vec![loopback]));
    assert!(resolves_to_blocked_ip(&vec![public, IpAddress::V6(1)]));
    assert!(!resolves_to_blocked_ip(&vec![public]));
}

#[test]
fn addresses_that_are_blocked() {
    let v4 = |a: u32, b: u32, c: u32, d: u32| IpAddress::V4(a << 24 | b << 16 | c << 8 | d);
    for ip in [
        v4(127, 0, 0, 1),
        v4(10, 1, 2, 3),
        v4(172, 16, 0, 1),
        v4(172, 31, 255, 255),
        v4(192, 168, 1, 1),
        v4(169, 254, 169, 254),
        v4(0, 0, 0, 0),
    ] {
        assert!(is_blocked_ip(ip), "{ip:?}");
    }
    for ip in [v4(172, 32, 0, 1), v4(11, 0, 0, 1), v4(8, 8, 8, 8), v4(192, 169, 0, 1)] {
        assert!(!is_blocked_ip(ip), "{ip:?}");
    }
    assert!(is_blocked_ip(IpAddress::V6(1)));
    assert!(is_blocked_ip(IpAddress::V6(0xfc00u128 << 112)));
    assert!(is_blocked_ip(IpAddress::V6(0xfe80u128 << 112)));
    assert!(!is_blocked_ip(IpAddress::V6(0x2001_0db8u128 << 96)));
}

#[test]
fn dotted_addresses() {
    assert_eq!(parse_dotted("1.2.3.4"), Some(0x0102_0304));
    assert_eq!(parse_dotted("256.2.3.4"), None);
    assert_eq!(parse_dotted("1.2.3"), None);
    assert_eq!(parse_dotted("01.2.3.4"), None);
    assert_eq!(parse_dotted("1.2.3.4."), None);
}

#[test]
fn extracts_readable_text_from_html() {
    let html = r#"
        <html><body>
            <nav>menu</nav>
            <article>
                <h1>Title</h1>
                <p>First paragraph.</p>
                <p>Second paragraph.</p>
            </article>
            <script>ignore me</script>
        </body></html>
    "#;

    let out = extract_readable_text(html);
    assert!(out.contains("Title"), "got: {out}");
    assert!(out.contains("First paragraph."), "got: {out}");
    assert!(!out.contains("ignore me"), "got: {out}");
    assert_eq!(out, "Title\nFirst paragraph.\nSecond paragraph.");
}

#[test]
fn text_without_paragraphs_is_taken_whole() {
    assert_eq!(extract_readable_text("<div>just  <b>some</b> text</div>"), "just some text");
    assert_eq!(extract_readable_text("<p>in the body</p>"), "in the body");
}

#[test]
fn readable_text_prefers_articles() {
    let words = |s: &str| vec![vec![vec![s.to_string()]]];
    let everything = vec!["all".to_string()];
    assert_eq!(readable_from(&words("a"), &words("b"), &everything), "a");
    assert_eq!(readable_from(&vec![], &words("b"), &everything), "b");
    assert_eq!(readable_from(&vec![], &vec![], &everything), "all");
}

#[test]
fn pages_are_bounded() {
    assert_eq!(read_page("application/json", 10, "{  }").unwrap(), "{ }");
    assert_eq!(read_page("text/plain", 2, "  ").unwrap_err(), "No readable content extracted");
    assert_eq!(read_page("text/html", 524_289, "x").unwrap_err(), "Response too large");
    assert!(is_too_large(524_289));
    assert!(!is_too_large(524_288));
    let long = format!("<p>{}</p>", "a".repeat(9_000));
    let text = read_page("text/html", long.len(), &long).unwrap();
    assert_eq!(text.chars().count(), 8_003);
    assert_eq!(truncate_chars("abc", 3), "abc");
    assert_eq!(truncate_chars("äbcd", 3), "äbc...");
}

fn found(title: &str) -> SearxResult {
    SearxResult {
        title: title.to_string(),
        url: "https://example.com/news".to_string(),
        content: Some("Snippet text".to_string()),
        published_date: Some("2026-04-25".to_string()),
        engine: Some("news".to_string()),
    }
}

#[test]
fn search_results_are_limited() {
    let list: Vec<SearxResult> = (0..20).map(|i| found(&format!("t{i}"))).collect();
    let got = search_results(&list, 3);
    assert_eq!(got.len(), 3);
    assert_eq!(got[0].title, "t0");
    assert_eq!(got[0].snippet, "Snippet text");
    assert_eq!(got[0].published_at.as_deref(), Some("2026-04-25"));
    assert_eq!(got[0].source.as_deref(), Some("news"));
    assert_eq!(search_results(&list, 50).len(), 10);
}

#[test]
fn searches_run_once() {
    let mut executor = test_executor();
    let c = call("web_search", r#"{"query":"  Rust   News ","max_results":9}"#);
    let key = match executor.begin(&c, at_millis(0)) {
        WebStep::Search { query, max_results, key } => {
            assert_eq!(query, "  Rust   News ");
            assert_eq!(max_results, 5);
            key
        }
        other => panic!("unexpected {other:?}"),
    };
    let results: Vec<SearchResult> = search_results(&vec![found("Headline")], 5);
    let first = executor.finish_search(key, results, at_millis(1));
    let value: Value = serde_json::from_str(&first).unwrap();
    assert_eq!(value["results"][0]["title"], "Headline");
    assert_eq!(value["results"][0]["url"], "https://example.com/news");
    assert_eq!(value["cached"], false);
    // The same words, however they are written, are answered from the cache.
    let again = call("web_search", r#"{"query":"Rust News","max_results":5}"#);
    let second: Value =
        serde_json::from_str(&answer_of(executor.begin(&again, at_millis(2)))).unwrap();
    assert_eq!(second["cached"], true);
    assert_eq!(second["results"], value["results"]);
    // ... until they are too old.
    assert!(matches!(executor.begin(&again, at_millis(300_002)), WebStep::Search { .. }));
}

#[test]
fn fetches_run_once() {
    let mut executor = test_executor();
    let c = call("fetch_url", r#"{"url":" https://example.com/a "}"#);
    let (url, key) = match executor.begin(&c, at_millis(0)) {
        WebStep::Fetch { url, key } => (url, key),
        other => panic!("unexpected {other:?}"),
    };
    assert_eq!(url, " https://example.com/a ");
    let long = "y".repeat(5_000);
    let first = executor.finish_fetch(&url, key, &long, at_millis(1));
    let value: Value = serde_json::from_str(&first).unwrap();
    assert_eq!(value["url"], " https://example.com/a ");
    assert_eq!(value["cached"], false);
    assert_eq!(value["content"].as_str().unwrap().chars().count(), 4_003);
    let lower = call("fetch_url", r#"{"url":"HTTPS://example.com/A"}"#);
    let second: Value =
        serde_json::from_str(&answer_of(executor.begin(&lower, at_millis(2)))).unwrap();
    assert_eq!(second["cached"], true);
    assert_eq!(second["content"], value["content"]);
}

#[test]
fn empty_arguments_are_refused() {
    let mut executor = test_executor();
    let a = answer_of(executor.begin(&call("web_search", r#"{"query":"  "}"#), at_millis(0)));
    assert!(a.contains("error"), "{a}");
    let b = answer_of(executor.begin(&call("fetch_url", "{}"), at_millis(0)));
    assert!(b.contains("error"), "{b}");
}

#[test]
fn failures_are_answers_too() {
    let text = search_failed(&vec!["outer".to_string(), "inner".to_string()]);
    let value: Value = serde_json::from_str(&text).unwrap();
    assert_eq!(value["error"], "search_failed");
    assert_eq!(value["details"], "outer");
    let text = search_failed(&vec!["outer".to_string(), "operation Timed Out".to_string()]);
    assert!(text.contains("\"search_timeout\""), "{text}");
    assert!(fetch_failed("Blocked target host").contains("\"fetch_blocked\""));
    assert!(fetch_failed("it timed out").contains("\"fetch_timeout\""));
    let text = fetch_failed("bad \"thing\"");
    let value: Value = serde_json::from_str(&text).unwrap();
    assert_eq!(value["error"], "fetch_failed");
}

#[test]
fn cache_keys_are_normal_forms() {
    assert_eq!(normalize_query("  A  b\tC "), "A b C");
    assert_eq!(normalize_url(" https://X.y/A "), "https://x.y/a");
}

#[test]
fn web_tools_are_two() {
    let names: Vec<String> = ai_tools().into_iter().map(|t| t.name).collect();
    assert_eq!(names, vec!["web_search", "fetch_url"]);
    for t in ai_tools() {
        let v: Value = serde_json::from_str(&t.parameters).unwrap();
        assert_eq!(v["type"], "object");
    }
}

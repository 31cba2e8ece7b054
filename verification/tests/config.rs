use twitch_1337::berlin::parse_clock;
use twitch_1337::config::{
    validate_config, AiBackend, AiConfig, Configuration, ConsolidationConfigSection,
    ExtractionConfigSection, HistoryPrefillConfig, MemoryConfigSection, DEFAULT_AI_TIMEOUT,
    DEFAULT_INSTRUCTION_TEMPLATE, DEFAULT_SYSTEM_PROMPT,
};
use twitch_1337::schedule::ScheduleConfig;

fn ai_with_run_at(run_at: &str) -> AiConfig {
    AiConfig {
        backend: AiBackend::Ollama,
        has_api_key: false,
        base_url: None,
        model: "x".to_string(),
        system_prompt: DEFAULT_SYSTEM_PROMPT.to_string(),
        instruction_template: DEFAULT_INSTRUCTION_TEMPLATE.to_string(),
        timeout: DEFAULT_AI_TIMEOUT,
        reasoning_effort: None,
        history_length: 0,
        history_prefill: None,
        memory: MemoryConfigSection::default(),
        extraction: ExtractionConfigSection::default(),
        consolidation: ConsolidationConfigSection {
            run_at: run_at.to_string(),
            ..ConsolidationConfigSection::default()
        },
        max_memories: None,
    }
}

fn ai() -> AiConfig {
    ai_with_run_at("04:00")
}

fn with_ai(ai: AiConfig) -> Configuration {
    let mut c = Configuration::test_default();
    c.ai = Some(ai);
    c
}

fn refusal(c: &Configuration) -> String {
    validate_config(c).unwrap_err()
}

#[test]
fn consolidation_run_at_parses() {
    let s = ConsolidationConfigSection::default();
    assert_eq!(s.run_at, "04:00");
    assert_eq!(parse_clock(&s.run_at), Some(4 * 3600));
}

#[test]
fn validate_rejects_malformed_run_at() {
    let err = refusal(&with_ai(ai_with_run_at("not-a-time")));
    assert!(err.contains("ai.consolidation.run_at"), "got: {err}");
}

#[test]
fn validate_accepts_well_formed_run_at() {
    validate_config(&with_ai(ai_with_run_at("04:00"))).unwrap();
}

#[test]
fn test_prefill_threshold_validation() {
    // Threshold must be between 0.0 and 1.0
    assert!((0.0..=1.0).contains(&0.0));
    assert!((0.0..=1.0).contains(&0.5));
    assert!((0.0..=1.0).contains(&1.0));
    assert!(!(0.0..=1.0).contains(&-0.1));
    assert!(!(0.0..=1.0).contains(&1.1));
}

#[test]
fn validate_checks_the_prefill_threshold() {
    let prefill = |threshold: i64, text: &str| {
        let mut a = ai();
        a.history_length = 10;
        a.history_prefill = Some(HistoryPrefillConfig {
            base_url: "http://logs".to_string(),
            threshold,
            threshold_text: text.to_string(),
        });
        validate_config(&with_ai(a))
    };
    assert!(prefill(0, "0").is_ok());
    assert!(prefill(500_000, "0.5").is_ok());
    assert!(prefill(1_000_000, "1").is_ok());
    assert!(prefill(-100_000, "-0.1").unwrap_err().contains("-0.1"));
    assert!(prefill(1_100_000, "1.1").is_err());
}

#[test]
fn validate_accepts_the_default() {
    assert!(validate_config(&Configuration::test_default()).is_ok());
}

#[test]
fn validate_rejects_each_fault() {
    let mut c = Configuration::test_default();
    c.twitch.channel = "  ".to_string();
    assert!(refusal(&c).contains("channel"), "{}", refusal(&c));

    let mut c = Configuration::test_default();
    c.twitch.username = String::new();
    assert!(refusal(&c).contains("username"), "{}", refusal(&c));

    let mut c = Configuration::test_default();
    c.twitch.expected_latency = 1001;
    assert!(validate_config(&c).is_err());
    c.twitch.expected_latency = 1000;
    assert!(validate_config(&c).is_ok());

    let mut a = ai();
    a.backend = AiBackend::OpenAi;
    assert!(refusal(&with_ai(a.clone())).contains("api_key"));
    a.has_api_key = true;
    assert!(validate_config(&with_ai(a)).is_ok());
}

fn schedule(name: &str, message: &str, interval: &str) -> Configuration {
    let mut c = Configuration::test_default();
    c.schedules = vec![ScheduleConfig {
        name: name.to_string(),
        message: message.to_string(),
        interval: interval.to_string(),
        start_date: None,
        end_date: None,
        active_time_start: None,
        active_time_end: None,
        enabled: true,
    }];
    c
}

#[test]
fn validate_checks_schedules() {
    assert!(validate_config(&schedule("a", "b", "01:00")).is_ok());
    assert!(refusal(&schedule("", "b", "01:00")).contains("name"));
    assert!(refusal(&schedule("a", " ", "01:00")).contains("message"));
    assert_eq!(refusal(&schedule("a", "b", "")), "Schedule 'a' interval cannot be empty");
    assert!(refusal(&schedule("a", "b", "x")).contains("invalid interval format"));
}

use serde_json::Value;
use twitch_1337::config::{AiBackend, AiConfig};
use twitch_1337::config::{
    ConsolidationConfigSection, ExtractionConfigSection, MemoryConfigSection,
};
use twitch_1337::llm::ollama;
use twitch_1337::llm::ollama::build_ollama_messages;
use twitch_1337::llm::openai;
use twitch_1337::llm::openai::{
    build_openai_messages, chat_answer, extract_api_error, is_openrouter, map_reasoning,
    parse_tool_call_arguments, take_arguments, tool_answer, ApiMessage, ApiToolCall,
};
use twitch_1337::llm::{
    llm_settings, status_error, truncate_for_echo, Message, ToolCall, ToolCallRound,
    ToolChatCompletionResponse, ToolDefinition, ToolResultMessage,
};

fn base() -> Vec<Message> {
    vec![
        Message { role: "system".to_string(), content: "sys".to_string() },
        Message { role: "user".to_string(), content: "hi".to_string() },
    ]
}

fn round(id: &str, name: &str, args: &str, content: &str, reasoning: Option<&str>) -> ToolCallRound {
    ToolCallRound {
        calls: vec![ToolCall {
            id: id.to_string(),
            name: name.to_string(),
            arguments: args.to_string(),
            arguments_parse_error: None,
        }],
        results: vec![ToolResultMessage {
            tool_call_id: id.to_string(),
            tool_name: name.to_string(),
            content: content.to_string(),
        }],
        reasoning_content: reasoning.map(|s| s.to_string()),
    }
}

fn parsed(texts: Vec<String>) -> Vec<Value> {
    texts.iter().map(|t| serde_json::from_str(t).expect("JSON")).collect()
}

fn json(text: &str) -> Value {
    serde_json::from_str(text).expect("JSON")
}

#[test]
fn build_messages_empty_rounds_passes_through_base_messages() {
    let msgs = parsed(build_openai_messages(&base(), &vec![]));
    assert_eq!(msgs.len(), 2);
    assert_eq!(msgs[0]["role"], "system");
    assert_eq!(msgs[1]["role"], "user");
}

#[test]
fn openai_build_messages_two_rounds_emits_correct_sequence() {
    let round1 =
        round("X", "save_memory", r#"{"key":"k1","fact":"f1"}"#, "Saved memory 'k1'", None);
    let round2 = round("Y", "delete_memory", r#"{"key":"k2"}"#, "Deleted memory 'k2'", None);

    let msgs = parsed(build_openai_messages(&base(), &vec![round1, round2]));

    assert_eq!(msgs.len(), 6);
    assert_eq!(msgs[0]["role"], "system");
    assert_eq!(msgs[1]["role"], "user");

    assert_eq!(msgs[2]["role"], "assistant");
    assert!(msgs[2]["content"].is_null());
    let calls1 = msgs[2]["tool_calls"].as_array().expect("tool_calls array");
    assert_eq!(calls1.len(), 1);
    assert_eq!(calls1[0]["id"], "X");
    assert_eq!(calls1[0]["type"], "function");
    assert_eq!(calls1[0]["function"]["name"], "save_memory");
    // Arguments must be a JSON-encoded *string* per OpenAI spec.
    let args1_str =
        calls1[0]["function"]["arguments"].as_str().expect("arguments must be a string");
    let args1_parsed: Value = serde_json::from_str(args1_str).unwrap();
    assert_eq!(args1_parsed, json(r#"{"key": "k1", "fact": "f1"}"#));

    assert_eq!(msgs[3]["role"], "tool");
    assert_eq!(msgs[3]["tool_call_id"], "X");
    assert_eq!(msgs[3]["content"], "Saved memory 'k1'");

    assert_eq!(msgs[4]["role"], "assistant");
    let calls2 = msgs[4]["tool_calls"].as_array().expect("tool_calls array");
    assert_eq!(calls2[0]["id"], "Y");

    assert_eq!(msgs[5]["role"], "tool");
    assert_eq!(msgs[5]["tool_call_id"], "Y");
    assert_eq!(msgs[5]["content"], "Deleted memory 'k2'");
}

#[test]
fn build_messages_reasoning_content_included_in_assistant_turn() {
    let r = round("Z", "save_memory", r#"{"key":"k"}"#, "ok", Some("I should save this fact."));
    let msgs = parsed(build_openai_messages(&base(), &vec![r]));
    assert_eq!(msgs[2]["role"], "assistant");
    assert_eq!(
        msgs[2]["reasoning_content"], "I should save this fact.",
        "reasoning_content must be echoed back in the assistant turn"
    );
}

#[test]
fn build_messages_no_reasoning_content_omits_field() {
    let r = round("Z", "save_memory", r#"{"key":"k"}"#, "ok", None);
    let msgs = parsed(build_openai_messages(&base(), &vec![r]));
    assert!(
        msgs[2].get("reasoning_content").is_none(),
        "reasoning_content must not be present when None"
    );
}

#[test]
fn parse_tool_call_arguments_valid_json_returns_value() {
    let (args, err) = parse_tool_call_arguments(r#"{"key":"k","fact":"f"}"#);
    assert!(err.is_none());
    assert_eq!(json(&args), json(r#"{"key": "k", "fact": "f"}"#));
}

#[test]
fn parse_tool_call_arguments_malformed_json_returns_error() {
    let raw = r#"{"key":"k" "fact":"f"}"#; // missing comma
    let (args, err) = parse_tool_call_arguments(raw);
    assert_eq!(json(&args), Value::Null);
    let err = err.expect("parse error must be set");
    assert!(!err.error.is_empty());
    assert_eq!(err.raw, raw);
}

#[test]
fn extract_api_error_returns_message_for_error_body() {
    let body = r#"{"error": {"message": "rate limit exceeded", "type": "rate_limit_error"}}"#;
    assert_eq!(extract_api_error(body).as_deref(), Some("rate limit exceeded"));
}

#[test]
fn extract_api_error_returns_none_for_choices_body() {
    let body = r#"{"choices": [{"message": {"content": "hi"}}]}"#;
    assert!(extract_api_error(body).is_none());
}

#[test]
fn parse_tool_call_arguments_truncates_oversized_raw() {
    let raw = "x".repeat(1024);
    let (_, err) = parse_tool_call_arguments(&raw);
    let err = err.expect("parse error must be set");
    assert!(err.raw.starts_with(&"x".repeat(512)));
    assert!(err.raw.contains("more chars"));
    assert!(err.raw.chars().count() < raw.chars().count());
}

#[test]
fn map_reasoning_openrouter_uses_nested_reasoning_object() {
    let r = map_reasoning(true, &Some("high".to_string()));
    assert!(r.reasoning_effort.is_none());
    let reasoning = r.nested_effort.expect("reasoning object must be set");
    assert_eq!(reasoning, "high");
}

#[test]
fn map_reasoning_non_openrouter_uses_reasoning_effort_field() {
    let r = map_reasoning(false, &Some("xhigh".to_string()));
    assert_eq!(r.reasoning_effort.as_deref(), Some("xhigh"));
    assert!(r.nested_effort.is_none());
}

#[test]
fn ollama_build_messages_two_rounds_emits_correct_sequence() {
    let rounds = vec![
        round("call_0", "save_memory", r#"{"key":"k1","fact":"f1"}"#, "Saved memory 'k1'", None),
        round("call_0", "delete_memory", r#"{"key":"k2"}"#, "Deleted memory 'k2'", None),
    ];

    let msgs = parsed(build_ollama_messages(&base(), &rounds));

    assert_eq!(msgs.len(), 6);
    assert_eq!(msgs[0]["role"], "system");
    assert_eq!(msgs[1]["role"], "user");

    assert_eq!(msgs[2]["role"], "assistant");
    let calls1 = msgs[2]["tool_calls"].as_array().expect("tool_calls array");
    assert_eq!(calls1.len(), 1);
    assert_eq!(calls1[0]["function"]["name"], "save_memory");
    // Ollama: arguments is an object, not a JSON-encoded string.
    assert_eq!(calls1[0]["function"]["arguments"], json(r#"{"key": "k1", "fact": "f1"}"#));

    assert_eq!(msgs[3]["role"], "tool");
    assert_eq!(msgs[3]["tool_name"], "save_memory");
    assert_eq!(msgs[3]["content"], "Saved memory 'k1'");

    assert_eq!(msgs[4]["role"], "assistant");
    assert_eq!(msgs[4]["tool_calls"][0]["function"]["name"], "delete_memory");

    assert_eq!(msgs[5]["role"], "tool");
    assert_eq!(msgs[5]["tool_name"], "delete_memory");
    assert_eq!(msgs[5]["content"], "Deleted memory 'k2'");
}

#[test]
fn openai_requests_carry_tools_and_reasoning() {
    let tools = vec![ToolDefinition {
        name: "t".to_string(),
        description: "does".to_string(),
        parameters: r#"{"type":"object"}"#.to_string(),
    }];
    let body = json(&openai::build_request(
        "m",
        &base(),
        &Some(tools),
        &vec![],
        &Some("low".to_string()),
        true,
    ));
    assert_eq!(body["model"], "m");
    assert_eq!(body["messages"][1]["content"], "hi");
    assert_eq!(body["tools"][0]["type"], "function");
    assert_eq!(body["tools"][0]["function"]["name"], "t");
    assert_eq!(body["tools"][0]["function"]["parameters"]["type"], "object");
    assert_eq!(body["reasoning"]["effort"], "low");
    assert!(body.get("reasoning_effort").is_none());

    let plain = json(&openai::build_request(
        "m",
        &base(),
        &None,
        &vec![],
        &Some("low".to_string()),
        false,
    ));
    assert!(plain.get("tools").is_none());
    assert_eq!(plain["reasoning_effort"], "low");
}

#[test]
fn ollama_requests_do_not_stream() {
    let body = json(&ollama::build_request("m", &base(), &None, &vec![]));
    assert_eq!(body["model"], "m");
    assert_eq!(body["stream"], false);
    assert_eq!(body["messages"].as_array().unwrap().len(), 2);
}

#[test]
fn quoting_keeps_awkward_text() {
    let text = "a \"b\"\\\n\u{1}ü🙂";
    let msgs = parsed(build_openai_messages(
        &vec![Message { role: "user".to_string(), content: text.to_string() }],
        &vec![],
    ));
    assert_eq!(msgs[0]["content"], text);
}

#[test]
fn openrouter_is_told_by_its_host() {
    assert!(is_openrouter("https://openrouter.ai/api/v1"));
    assert!(!is_openrouter("https://api.openai.com/v1"));
}

fn answer(content: Option<&str>, calls: Option<Vec<(&str, &str, &str)>>) -> ApiMessage {
    ApiMessage {
        content: content.map(|s| s.to_string()),
        tool_calls: calls.map(|list| {
            list.into_iter()
                .map(|(id, name, args)| ApiToolCall {
                    id: id.to_string(),
                    name: name.to_string(),
                    arguments: args.to_string(),
                })
                .collect()
        }),
        reasoning_content: Some("because".to_string()),
    }
}

#[test]
fn chat_answers() {
    assert_eq!(chat_answer(&vec![answer(Some("hello"), None)]).unwrap(), "hello");
    assert!(chat_answer(&vec![]).is_err());
}

#[test]
fn tool_answers_are_told_apart() {
    let got = tool_answer(&vec![answer(None, Some(vec![("a", "f", r#"{"x":1}"#), ("b", "g", "{")]))]);
    match got.unwrap() {
        ToolChatCompletionResponse::ToolCalls { calls, reasoning_content } => {
            assert_eq!(calls.len(), 2);
            assert_eq!(calls[0].id, "a");
            assert_eq!(calls[0].name, "f");
            assert_eq!(json(&calls[0].arguments), json(r#"{"x":1}"#));
            assert!(calls[0].arguments_parse_error.is_none());
            assert_eq!(calls[1].arguments_parse_error.as_ref().unwrap().raw, "{");
            assert_eq!(reasoning_content.as_deref(), Some("because"));
        }
        other => panic!("unexpected {other:?}"),
    }
    match tool_answer(&vec![answer(Some("done"), Some(vec![]))]).unwrap() {
        ToolChatCompletionResponse::Message(m) => assert_eq!(m, "done"),
        other => panic!("unexpected {other:?}"),
    }
    assert!(tool_answer(&vec![]).is_err());
}

#[test]
fn ollama_numbers_its_calls() {
    let m = ollama::ApiMessage {
        content: Some(String::new()),
        tool_calls: Some(vec![
            ollama::ApiToolCall { name: "f".to_string(), arguments: "{}".to_string() },
            ollama::ApiToolCall { name: "g".to_string(), arguments: "{}".to_string() },
        ]),
    };
    match ollama::tool_answer(&m) {
        ToolChatCompletionResponse::ToolCalls { calls, .. } => {
            assert_eq!(calls[0].id, "call_0");
            assert_eq!(calls[1].id, "call_1");
            assert_eq!(calls[1].name, "g");
        }
        other => panic!("unexpected {other:?}"),
    }
}

#[test]
fn parsed_arguments_are_taken() {
    let (args, err) = take_arguments(Ok("{}".to_string()), "raw");
    assert_eq!(args, "{}");
    assert!(err.is_none());
    let (args, err) = take_arguments(Err("bad".to_string()), "raw");
    assert_eq!(args, "null");
    let err = err.unwrap();
    assert_eq!(err.error, "bad");
    assert_eq!(err.raw, "raw");
}

#[test]
fn echoes_are_short() {
    assert_eq!(truncate_for_echo("abc", 3), "abc");
    assert_eq!(truncate_for_echo("abcde", 3), "abc... (2 more chars)");
}

#[test]
fn settings_come_from_the_configuration() {
    assert!(llm_settings(&None).is_none());
    let mut ai = AiConfig {
        backend: AiBackend::Ollama,
        has_api_key: false,
        base_url: None,
        model: "x".to_string(),
        system_prompt: String::new(),
        instruction_template: String::new(),
        timeout: 30,
        reasoning_effort: None,
        history_length: 0,
        history_prefill: None,
        memory: MemoryConfigSection::default(),
        extraction: ExtractionConfigSection::default(),
        consolidation: ConsolidationConfigSection::default(),
        max_memories: None,
    };
    assert_eq!(llm_settings(&Some(ai.clone())).unwrap().base_url, "http://localhost:11434");
    ai.backend = AiBackend::OpenAi;
    assert_eq!(llm_settings(&Some(ai.clone())).unwrap().base_url, "https://openrouter.ai/api/v1");
    ai.base_url = Some("http://here".to_string());
    assert_eq!(llm_settings(&Some(ai)).unwrap().base_url, "http://here");
    assert!(status_error("S", "500", "body").contains("500"));
}

//! What the bot says to a language model and what it hears back.
use vstd::prelude::*;
use crate::config::{AiBackend, AiConfig};
use crate::text;

pub mod ollama;
pub mod openai;

verus! {

/// Why the arguments of a tool call could not be read.
#[derive(Debug, Clone)]
pub struct ToolCallArgsError {
    pub error: String,
    pub raw: String,
}

/// A tool call that the model asks for. The arguments are a JSON text.
#[derive(Debug, Clone)]
pub struct ToolCall {
    pub id: String,
    pub name: String,
    pub arguments: String,
    pub arguments_parse_error: Option<ToolCallArgsError>,
}

/// The contents of a `ToolCallArgsError`.
#[verifier::ext_equal]
pub ghost struct ArgsError {
    pub error: Seq<char>,
    pub raw: Seq<char>,
}

/// The contents of a `ToolCall`.
#[verifier::ext_equal]
pub ghost struct Call {
    pub id: Seq<char>,
    pub name: Seq<char>,
    pub arguments: Seq<char>,
    pub parse_error: Option<ArgsError>,
}

impl ToolCall {
    pub open spec fn view(&self) -> Call {
        Call {
            id: self.id@,
            name: self.name@,
            arguments: self.arguments@,
            parse_error: match self.arguments_parse_error {
                Some(e) => Some(ArgsError { error: e.error@, raw: e.raw@ }),
                None => None,
            },
        }
    }
}

impl ToolCall {
    /// A copy of the call.
    pub fn copy(&self) -> (r: ToolCall)
        ensures
            r@ == self@,
    {
        ToolCall {
            id: self.id.clone(),
            name: self.name.clone(),
            arguments: self.arguments.clone(),
            arguments_parse_error: match &self.arguments_parse_error {
                Some(e) => Some(
                    ToolCallArgsError { error: e.error.clone(), raw: e.raw.clone() },
                ),
                None => None,
            },
        }
    }
}

/// The contents of a list of calls.
pub open spec fn calls_of(calls: Seq<ToolCall>) -> Seq<Call> {
    Seq::new(calls.len(), |i: int| calls[i]@)
}

/// A message of a conversation.
#[derive(Debug, Clone, PartialEq, Eq)]
pub struct Message {
    pub role: String,
    pub content: String,
}

/// The contents of a `Message`.
#[verifier::ext_equal]
pub ghost struct Said {
    pub role: Seq<char>,
    pub content: Seq<char>,
}

impl Message {
    pub open spec fn view(&self) -> Said {
        Said { role: self.role@, content: self.content@ }
    }

    pub fn system(content: String) -> (r: Message)
        ensures
            r@ == (Said { role: "system"@, content: content@ }),
    {
        Message { role: "system".to_owned(), content }
    }

    pub fn user(content: String) -> (r: Message)
        ensures
            r@ == (Said { role: "user"@, content: content@ }),
    {
        Message { role: "user".to_owned(), content }
    }

    pub fn assistant(content: String) -> (r: Message)
        ensures
            r@ == (Said { role: "assistant"@, content: content@ }),
    {
        Message { role: "assistant".to_owned(), content }
    }
}

pub open spec fn messages_of(messages: Seq<Message>) -> Seq<Said> {
    Seq::new(messages.len(), |i: int| messages[i]@)
}

/// What a tool call came to, as it is sent back to the model.
#[derive(Debug, Clone, PartialEq, Eq)]
pub struct ToolResultMessage {
    pub tool_call_id: String,
    pub tool_name: String,
    pub content: String,
}

/// The contents of a `ToolResultMessage`.
#[verifier::ext_equal]
pub ghost struct CallResult {
    pub id: Seq<char>,
    pub name: Seq<char>,
    pub content: Seq<char>,
}

impl ToolResultMessage {
    pub open spec fn view(&self) -> CallResult {
        CallResult { id: self.tool_call_id@, name: self.tool_name@, content: self.content@ }
    }

    /// The result of a call.
    pub fn answer(call: &ToolCall, content: String) -> (r: ToolResultMessage)
        ensures
            r@ == (CallResult { id: call.id@, name: call.name@, content: content@ }),
    {
        ToolResultMessage {
            tool_call_id: call.id.clone(),
            tool_name: call.name.clone(),
            content,
        }
    }
}

pub open spec fn results_of(results: Seq<ToolResultMessage>) -> Seq<CallResult> {
    Seq::new(results.len(), |i: int| results[i]@)
}

/// The calls that a model asked for in one turn, and what they came to.
#[derive(Debug, Clone)]
pub struct ToolCallRound {
    pub calls: Vec<ToolCall>,
    pub results: Vec<ToolResultMessage>,
    pub reasoning_content: Option<String>,
}

/// The contents of a `ToolCallRound`.
#[verifier::ext_equal]
pub ghost struct Round {
    pub calls: Seq<Call>,
    pub results: Seq<CallResult>,
    pub reasoning: Option<Seq<char>>,
}

impl ToolCallRound {
    pub open spec fn view(&self) -> Round {
        Round {
            calls: calls_of(self.calls@),
            results: results_of(self.results@),
            reasoning: text::opt_view(self.reasoning_content),
        }
    }
}

pub open spec fn rounds_of(rounds: Seq<ToolCallRound>) -> Seq<Round> {
    Seq::new(rounds.len(), |i: int| rounds[i]@)
}

/// A tool that is offered to the model. The parameters are a JSON schema, as text.
#[derive(Debug, Clone, PartialEq, Eq)]
pub struct ToolDefinition {
    pub name: String,
    pub description: String,
    pub parameters: String,
}

/// The contents of a `ToolDefinition`.
#[verifier::ext_equal]
pub ghost struct Tool {
    pub name: Seq<char>,
    pub description: Seq<char>,
    pub parameters: Seq<char>,
}

impl ToolDefinition {
    pub open spec fn view(&self) -> Tool {
        Tool { name: self.name@, description: self.description@, parameters: self.parameters@ }
    }

    pub fn new(name: &str, description: &str, parameters: &str) -> (r: ToolDefinition)
        ensures
            r@ == (Tool { name: name@, description: description@, parameters: parameters@ }),
    {
        ToolDefinition {
            name: name.to_owned(),
            description: description.to_owned(),
            parameters: parameters.to_owned(),
        }
    }
}

pub open spec fn tools_of(tools: Seq<ToolDefinition>) -> Seq<Tool> {
    Seq::new(tools.len(), |i: int| tools[i]@)
}

/// A request for a plain answer.
#[derive(Debug, Clone)]
pub struct ChatCompletionRequest {
    pub model: String,
    pub messages: Vec<Message>,
    pub reasoning_effort: Option<String>,
}

/// A request that offers tools, with the rounds so far.
#[derive(Debug, Clone)]
pub struct ToolChatCompletionRequest {
    pub model: String,
    pub messages: Vec<Message>,
    pub tools: Vec<ToolDefinition>,
    pub reasoning_effort: Option<String>,
    pub prior_rounds: Vec<ToolCallRound>,
}

/// What a model answers where tools are offered.
#[derive(Debug, Clone)]
pub enum ToolChatCompletionResponse {
    Message(String),
    ToolCalls { calls: Vec<ToolCall>, reasoning_content: Option<String> },
}

/// A text cut to a number of characters, with a note of how many more there are.
pub open spec fn echoed(s: Seq<char>, max: nat) -> Seq<char> {
    if s.len() <= max {
        s
    } else {
        s.take(max as int) + "... ("@ + text::decimal((s.len() - max) as nat) + " more chars)"@
    }
}

/// Cuts a text that is shown to the model again.
pub fn truncate_for_echo(s: &str, max_chars: usize) -> (r: String)
    ensures
        r@ == echoed(s@, max_chars as nat),
{
    let v = text::chars_of(s);
    if v.len() <= max_chars {
        return s.to_owned();
    }
    let mut out = text::string_of(&v, 0, max_chars);
    assert(v@.subrange(0, max_chars as int) =~= v@.take(max_chars as int));
    out.push_str("... (");
    out.push_str(text::from_usize(v.len() - max_chars).as_str());
    out.push_str(" more chars)");
    out
}

/// Where a model is reached.
#[derive(Debug, Clone)]
pub struct LlmSettings {
    pub backend: AiBackend,
    /// Without a slash at its end.
    pub base_url: String,
    pub model: String,
}

/// The address of a backend: what is configured, or its own.
pub open spec fn base_url_of(backend: AiBackend, configured: Option<Seq<char>>) -> Seq<char> {
    text::strip_trailing(
        match configured {
            Some(url) => url,
            None => match backend {
                AiBackend::OpenAi => openai::DEFAULT_BASE_URL@,
                AiBackend::Ollama => ollama::DEFAULT_BASE_URL@,
            },
        },
        '/',
    )
}

/// Where the model of a configuration is reached; nowhere without a configuration.
pub fn llm_settings(ai: &Option<AiConfig>) -> (r: Option<LlmSettings>)
    ensures
        match (*ai, r) {
            (None, None) => true,
            (Some(c), Some(s)) => {
                &&& s.backend == c.backend
                &&& s.model@ == c.model@
                &&& s.base_url@ == base_url_of(c.backend, text::opt_view(c.base_url))
            },
            _ => false,
        },
{
    match ai {
        None => None,
        Some(c) => {
            let base = match &c.base_url {
                Some(url) => url.as_str(),
                None => match c.backend {
                    AiBackend::OpenAi => openai::DEFAULT_BASE_URL,
                    AiBackend::Ollama => ollama::DEFAULT_BASE_URL,
                },
            };
            Some(
                LlmSettings {
                    backend: c.backend,
                    base_url: text::trim_end_matches(base, '/'),
                    model: c.model.clone(),
                },
            )
        },
    }
}

/// The error of a response with a status that is no success.
pub open spec fn status_text(service: Seq<char>, status: Seq<char>, body: Seq<char>) -> Seq<char> {
    service + " error (status "@ + status + "): "@ + body
}

pub fn status_error(service: &str, status: &str, body: &str) -> (r: String)
    ensures
        r@ == status_text(service@, status@, body@),
{
    let mut s = service.to_owned();
    s.push_str(" error (status ");
    s.push_str(status);
    s.push_str("): ");
    s.push_str(body);
    s
}


/// A text that is short enough is shown as it is; of a longer one the beginning is shown, and
/// how much more there is.
pub proof fn law_echo_tells_the_rest(s: Seq<char>, max: nat)
    ensures
        s.len() <= max ==> echoed(s, max) == s,
        s.len() > max ==> text::has_prefix(echoed(s, max), s.take(max as int)) && text::has(
            echoed(s, max),
            text::decimal((s.len() - max) as nat),
        ),
{
    broadcast use text::group_parts;

}

/// A model is reached where it is configured, whether the address ends with a slash or not;
/// otherwise at the usual address of its backend.
pub proof fn law_models_are_reached(backend: AiBackend, url: Seq<char>)
    requires
        url.len() > 0,
        url.last() != '/',
    ensures
        base_url_of(backend, Some(url)) == url,
        base_url_of(backend, Some(url.push('/'))) == url,
        base_url_of(AiBackend::OpenAi, None) == text::strip_trailing(
            "https://openrouter.ai/api/v1"@,
            '/',
        ),
        base_url_of(AiBackend::Ollama, None) == text::strip_trailing("http://localhost:11434"@, '/'),
{
    assert(url.push('/').drop_last() =~= url);
    reveal_with_fuel(text::strip_trailing, 3);
}

/// A response that is no success is told with the service, the status and what it says.
pub proof fn law_status_is_told(service: Seq<char>, status: Seq<char>, body: Seq<char>)
    ensures
        text::has_prefix(status_text(service, status, body), service),
        text::has(status_text(service, status, body), status),
        text::has_suffix(status_text(service, status, body), body),
{
    broadcast use text::group_parts;

}

} // verus!

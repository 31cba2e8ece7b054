//! APIs like that of OpenAI: what is sent, and how answers are read.
use vstd::prelude::*;
use crate::json;
use crate::llm;
use crate::llm::{
    truncate_for_echo, Message, ToolCall, ToolCallArgsError, ToolCallRound,
    ToolChatCompletionResponse, ToolDefinition, ToolResultMessage,
};
use crate::text;

verus! {

pub const DEFAULT_BASE_URL: &'static str = "https://openrouter.ai/api/v1";

pub const SERVICE: &'static str = "OpenAI-compatible API";

/// How much of arguments that could not be read is shown to the model again.
pub const ECHO_MAX_CHARS: usize = 512;

/// Whether an address is one of OpenRouter.
pub fn is_openrouter(base_url: &str) -> (r: bool)
    ensures
        r == text::has(base_url@, "openrouter.ai"@),
{
    text::contains(base_url, "openrouter.ai")
}

/// How much a model is to reason: in a field of the request, or in an object of its own.
#[derive(Debug, Clone)]
pub struct Reasoning {
    pub reasoning_effort: Option<String>,
    pub nested_effort: Option<String>,
}

/// OpenRouter takes the effort in an object of its own, the others in a field.
pub fn map_reasoning(openrouter: bool, effort: &Option<String>) -> (r: Reasoning)
    ensures
        text::opt_view(r.reasoning_effort) == if openrouter {
            None
        } else {
            text::opt_view(*effort)
        },
        text::opt_view(r.nested_effort) == if openrouter {
            text::opt_view(*effort)
        } else {
            None
        },
{
    if openrouter {
        Reasoning { reasoning_effort: None, nested_effort: text::clone_opt(effort) }
    } else {
        Reasoning { reasoning_effort: text::clone_opt(effort), nested_effort: None }
    }
}

// ---------------------------------------------------------------------------
// Messages
// ---------------------------------------------------------------------------

pub open spec fn message_json(m: llm::Said) -> Seq<char> {
    json::object_text(
        seq![("content"@, json::json_quoted(m.content)), ("role"@, json::json_quoted(m.role))],
    )
}

pub(crate) fn plain_message(m: &Message) -> (r: String)
    ensures
        r@ == message_json(m@),
{
    let mut o: Vec<(&'static str, String)> = Vec::new();
    o.push(("content", json::quote(m.content.as_str())));
    o.push(("role", json::quote(m.role.as_str())));
    assert(json::members_of(o@) =~= seq![
        ("content"@, json::json_quoted(m.content@)),
        ("role"@, json::json_quoted(m.role@)),
    ]);
    json::object(&o)
}

/// A call as it is sent back. The arguments are a JSON text inside a JSON string.
pub open spec fn call_json(c: llm::Call) -> Seq<char> {
    json::object_text(
        seq![
            (
                "function"@,
                json::object_text(
                    seq![
                        ("arguments"@, json::json_quoted(c.arguments)),
                        ("name"@, json::json_quoted(c.name)),
                    ],
                ),
            ),
            ("id"@, json::json_quoted(c.id)),
            ("type"@, json::json_quoted("function"@)),
        ],
    )
}

fn sent_call(c: &ToolCall) -> (r: String)
    ensures
        r@ == call_json(c@),
{
    let mut f: Vec<(&'static str, String)> = Vec::new();
    f.push(("arguments", json::quote(c.arguments.as_str())));
    f.push(("name", json::quote(c.name.as_str())));
    assert(json::members_of(f@) =~= seq![
        ("arguments"@, json::json_quoted(c.arguments@)),
        ("name"@, json::json_quoted(c.name@)),
    ]);
    let function = json::object(&f);
    let ghost function_text = function@;
    let mut o: Vec<(&'static str, String)> = Vec::new();
    o.push(("function", function));
    o.push(("id", json::quote(c.id.as_str())));
    o.push(("type", json::quote("function")));
    assert(json::members_of(o@) =~= seq![
        ("function"@, function_text),
        ("id"@, json::json_quoted(c.id@)),
        ("type"@, json::json_quoted("function"@)),
    ]);
    json::object(&o)
}

/// The turn of the assistant with its calls, and with its reasoning where it gave any.
pub open spec fn assistant_json(r: llm::Round) -> Seq<char> {
    let calls = json::array_text(Seq::new(r.calls.len(), |i: int| call_json(r.calls[i])));
    json::object_text(
        match r.reasoning {
            Some(reasoning) => seq![
                ("content"@, "null"@),
                ("reasoning_content"@, json::json_quoted(reasoning)),
                ("role"@, json::json_quoted("assistant"@)),
                ("tool_calls"@, calls),
            ],
            None => seq![
                ("content"@, "null"@),
                ("role"@, json::json_quoted("assistant"@)),
                ("tool_calls"@, calls),
            ],
        },
    )
}

fn assistant_turn(round: &ToolCallRound) -> (r: String)
    ensures
        r@ == assistant_json(round@),
{
    let ghost all = llm::calls_of(round.calls@);
    let mut calls: Vec<String> = Vec::new();
    let mut i: usize = 0;
    while i < round.calls.len()
        invariant
            all == llm::calls_of(round.calls@),
            i <= round.calls@.len(),
            calls@.len() == i,
            forall|j: int| 0 <= j < i ==> calls@[j]@ == call_json(#[trigger] all[j]),
        decreases round.calls@.len() - i,
    {
        assert(all[i as int] == round.calls@[i as int]@);
        calls.push(sent_call(&round.calls[i]));
        i = i + 1;
    }
    assert(text::views(calls@) =~= Seq::new(all.len(), |j: int| call_json(all[j])));
    let list = json::array(&calls);
    let ghost list_text = list@;
    let mut o: Vec<(&'static str, String)> = Vec::new();
    o.push(("content", "null".to_owned()));
    if let Some(reasoning) = &round.reasoning_content {
        o.push(("reasoning_content", json::quote(reasoning.as_str())));
    }
    o.push(("role", json::quote("assistant")));
    o.push(("tool_calls", list));
    proof {
        match text::opt_view(round.reasoning_content) {
            Some(reasoning) => {
                assert(json::members_of(o@) =~= seq![
                    ("content"@, "null"@),
                    ("reasoning_content"@, json::json_quoted(reasoning)),
                    ("role"@, json::json_quoted("assistant"@)),
                    ("tool_calls"@, list_text),
                ]);
            },
            None => {
                assert(json::members_of(o@) =~= seq![
                    ("content"@, "null"@),
                    ("role"@, json::json_quoted("assistant"@)),
                    ("tool_calls"@, list_text),
                ]);
            },
        }
    }
    json::object(&o)
}

/// The result of a call, under its id.
pub open spec fn result_json(r: llm::CallResult) -> Seq<char> {
    json::object_text(
        seq![
            ("content"@, json::json_quoted(r.content)),
            ("role"@, json::json_quoted("tool"@)),
            ("tool_call_id"@, json::json_quoted(r.id)),
        ],
    )
}

fn tool_turn(t: &ToolResultMessage) -> (r: String)
    ensures
        r@ == result_json(t@),
{
    let mut o: Vec<(&'static str, String)> = Vec::new();
    o.push(("content", json::quote(t.content.as_str())));
    o.push(("role", json::quote("tool")));
    o.push(("tool_call_id", json::quote(t.tool_call_id.as_str())));
    assert(json::members_of(o@) =~= seq![
        ("content"@, json::json_quoted(t.content@)),
        ("role"@, json::json_quoted("tool"@)),
        ("tool_call_id"@, json::json_quoted(t.tool_call_id@)),
    ]);
    json::object(&o)
}

/// A round: the turn of the assistant, and after it the results of its calls.
pub open spec fn round_json(r: llm::Round) -> Seq<Seq<char>> {
    seq![assistant_json(r)] + Seq::new(r.results.len(), |i: int| result_json(r.results[i]))
}

/// Some rounds, one after the other.
pub open spec fn rounds_json(rounds: Seq<llm::Round>) -> Seq<Seq<char>>
    decreases rounds.len(),
{
    if rounds.len() == 0 {
        Seq::empty()
    } else {
        rounds_json(rounds.drop_last()) + round_json(rounds.last())
    }
}

/// All messages of a request: those of the conversation, and then the rounds.
pub open spec fn messages_json(messages: Seq<llm::Said>, rounds: Seq<llm::Round>) -> Seq<Seq<char>> {
    Seq::new(messages.len(), |i: int| message_json(messages[i])) + rounds_json(rounds)
}

/// Adds the messages of a round to those so far.
fn add_round(out: &mut Vec<String>, round: &ToolCallRound)
    ensures
        text::views(final(out)@) == text::views(old(out)@) + round_json(round@),
{
    let ghost start = text::views(out@);
    let ghost all = llm::results_of(round.results@);
    out.push(assistant_turn(round));
    assert(text::views(out@) =~= start + seq![assistant_json(round@)]);
    let mut i: usize = 0;
    assert(seq![assistant_json(round@)] + Seq::new(0, |j: int| result_json(all[j])) =~= seq![
        assistant_json(round@),
    ]);
    while i < round.results.len()
        invariant
            all == llm::results_of(round.results@),
            i <= round.results@.len(),
            text::views(out@) == start + (seq![assistant_json(round@)] + Seq::new(
                i as nat,
                |j: int| result_json(all[j]),
            )),
        decreases round.results@.len() - i,
    {
        let ghost before = text::views(out@);
        assert(all[i as int] == round.results@[i as int]@);
        out.push(tool_turn(&round.results[i]));
        proof {
            assert(text::views(out@) =~= before.push(result_json(all[i as int])));
            assert(Seq::new((i + 1) as nat, |j: int| result_json(all[j])) =~= Seq::new(
                i as nat,
                |j: int| result_json(all[j]),
            ).push(result_json(all[i as int])));
            assert(text::views(out@) =~= start + (seq![assistant_json(round@)] + Seq::new(
                (i + 1) as nat,
                |j: int| result_json(all[j]),
            )));
        }
        i = i + 1;
    }
}

/// The messages of a request, as JSON texts. The turn that asks for calls comes before
/// their results.
pub fn build_openai_messages(messages: &Vec<Message>, prior_rounds: &Vec<ToolCallRound>) -> (r: Vec<
    String,
>)
    ensures
        text::views(r@) == messages_json(
            llm::messages_of(messages@),
            llm::rounds_of(prior_rounds@),
        ),
{
    let ghost said = llm::messages_of(messages@);
    let ghost rounds = llm::rounds_of(prior_rounds@);
    let mut out: Vec<String> = Vec::new();
    let mut i: usize = 0;
    while i < messages.len()
        invariant
            said == llm::messages_of(messages@),
            i <= messages@.len(),
            out@.len() == i,
            forall|j: int| 0 <= j < i ==> out@[j]@ == message_json(#[trigger] said[j]),
        decreases messages@.len() - i,
    {
        assert(said[i as int] == messages@[i as int]@);
        out.push(plain_message(&messages[i]));
        i = i + 1;
    }
    let ghost base = Seq::new(said.len(), |j: int| message_json(said[j]));
    proof {
        assert(text::views(out@) =~= base);
        assert(rounds.take(0) =~= Seq::<llm::Round>::empty());
        assert(base + rounds_json(rounds.take(0)) =~= base);
    }
    let mut k: usize = 0;
    while k < prior_rounds.len()
        invariant
            rounds == llm::rounds_of(prior_rounds@),
            k <= prior_rounds@.len(),
            text::views(out@) == base + rounds_json(rounds.take(k as int)),
        decreases prior_rounds@.len() - k,
    {
        let ghost before = text::views(out@);
        proof {
            assert(rounds.take(k + 1).drop_last() =~= rounds.take(k as int));
            assert(rounds.take(k + 1).last() == prior_rounds@[k as int]@);
        }
        add_round(&mut out, &prior_rounds[k]);
        assert(text::views(out@) =~= base + rounds_json(rounds.take(k + 1)));
        k = k + 1;
    }
    assert(rounds.take(k as int) =~= rounds);
    out
}

/// How many messages some rounds make.
pub open spec fn rounds_len(rounds: Seq<llm::Round>) -> nat
    decreases rounds.len(),
{
    if rounds.len() == 0 {
        0
    } else {
        rounds_len(rounds.drop_last()) + 1 + rounds.last().results.len()
    }
}

/// The conversation comes first and stays as it is; each round then adds the turn of the
/// assistant and one message for each result.
pub proof fn law_rounds_follow_messages(messages: Seq<llm::Said>, rounds: Seq<llm::Round>)
    ensures
        messages_json(messages, rounds).len() == messages.len() + rounds_len(rounds),
        forall|i: int|
            0 <= i < messages.len() ==> #[trigger] messages_json(messages, rounds)[i]
                == message_json(messages[i]),
        rounds.len() > 0 ==> messages_json(messages, rounds) == messages_json(
            messages,
            rounds.drop_last(),
        ) + round_json(rounds.last()),
    decreases rounds.len(),
{
    if rounds.len() > 0 {
        law_rounds_follow_messages(messages, rounds.drop_last());
        assert(messages_json(messages, rounds) =~= messages_json(messages, rounds.drop_last())
            + round_json(rounds.last()));
    }
}

// ---------------------------------------------------------------------------
// Requests
// ---------------------------------------------------------------------------

pub open spec fn tool_json(t: llm::Tool) -> Seq<char> {
    json::object_text(
        seq![
            ("type"@, json::json_quoted("function"@)),
            (
                "function"@,
                json::object_text(
                    seq![
                        ("name"@, json::json_quoted(t.name)),
                        ("description"@, json::json_quoted(t.description)),
                        ("parameters"@, t.parameters),
                    ],
                ),
            ),
        ],
    )
}

fn offered_tool(t: &ToolDefinition) -> (r: String)
    ensures
        r@ == tool_json(t@),
{
    let mut f: Vec<(&'static str, String)> = Vec::new();
    f.push(("name", json::quote(t.name.as_str())));
    f.push(("description", json::quote(t.description.as_str())));
    f.push(("parameters", t.parameters.clone()));
    assert(json::members_of(f@) =~= seq![
        ("name"@, json::json_quoted(t.name@)),
        ("description"@, json::json_quoted(t.description@)),
        ("parameters"@, t.parameters@),
    ]);
    let function = json::object(&f);
    let ghost function_text = function@;
    let mut o: Vec<(&'static str, String)> = Vec::new();
    o.push(("type", json::quote("function")));
    o.push(("function", function));
    assert(json::members_of(o@) =~= seq![
        ("type"@, json::json_quoted("function"@)),
        ("function"@, function_text),
    ]);
    json::object(&o)
}

pub open spec fn tools_json(tools: Seq<llm::Tool>) -> Seq<char> {
    json::array_text(Seq::new(tools.len(), |i: int| tool_json(tools[i])))
}

/// The tools of a request.
pub fn build_tools(tools: &Vec<ToolDefinition>) -> (r: String)
    ensures
        r@ == tools_json(llm::tools_of(tools@)),
{
    let ghost all = llm::tools_of(tools@);
    let mut out: Vec<String> = Vec::new();
    let mut i: usize = 0;
    while i < tools.len()
        invariant
            all == llm::tools_of(tools@),
            i <= tools@.len(),
            out@.len() == i,
            forall|j: int| 0 <= j < i ==> out@[j]@ == tool_json(#[trigger] all[j]),
        decreases tools@.len() - i,
    {
        assert(all[i as int] == tools@[i as int]@);
        out.push(offered_tool(&tools[i]));
        i = i + 1;
    }
    assert(text::views(out@) =~= Seq::new(all.len(), |j: int| tool_json(all[j])));
    json::array(&out)
}

/// The members of a request that say how much the model is to reason.
pub open spec fn effort_members(effort: Option<Seq<char>>, openrouter: bool) -> Seq<
    (Seq<char>, Seq<char>),
> {
    match effort {
        None => Seq::empty(),
        Some(e) => if openrouter {
            seq![("reasoning"@, json::object_text(seq![("effort"@, json::json_quoted(e))]))]
        } else {
            seq![("reasoning_effort"@, json::json_quoted(e))]
        },
    }
}

/// A request. Tools are given where they are offered.
pub open spec fn request_json(
    model: Seq<char>,
    messages: Seq<llm::Said>,
    tools: Option<Seq<llm::Tool>>,
    rounds: Seq<llm::Round>,
    effort: Option<Seq<char>>,
    openrouter: bool,
) -> Seq<char> {
    json::object_text(
        (match tools {
            None => seq![
                ("model"@, json::json_quoted(model)),
                ("messages"@, json::array_text(messages_json(messages, rounds))),
            ],
            Some(t) => seq![
                ("model"@, json::json_quoted(model)),
                ("messages"@, json::array_text(messages_json(messages, rounds))),
                ("tools"@, tools_json(t)),
            ],
        }) + effort_members(effort, openrouter),
    )
}

pub open spec fn opt_tools(tools: Option<Vec<ToolDefinition>>) -> Option<Seq<llm::Tool>> {
    match tools {
        Some(t) => Some(llm::tools_of(t@)),
        None => None,
    }
}

/// The body of a request.
pub fn build_request(
    model: &str,
    messages: &Vec<Message>,
    tools: &Option<Vec<ToolDefinition>>,
    prior_rounds: &Vec<ToolCallRound>,
    effort: &Option<String>,
    openrouter: bool,
) -> (r: String)
    ensures
        r@ == request_json(
            model@,
            llm::messages_of(messages@),
            opt_tools(*tools),
            llm::rounds_of(prior_rounds@),
            text::opt_view(*effort),
            openrouter,
        ),
{
    let ghost said = llm::messages_of(messages@);
    let ghost rounds = llm::rounds_of(prior_rounds@);
    let list = build_openai_messages(messages, prior_rounds);
    let mut o: Vec<(&'static str, String)> = Vec::new();
    o.push(("model", json::quote(model)));
    o.push(("messages", json::array(&list)));
    if let Some(t) = tools {
        o.push(("tools", build_tools(t)));
    }
    let ghost head = match opt_tools(*tools) {
        None => seq![
            ("model"@, json::json_quoted(model@)),
            ("messages"@, json::array_text(messages_json(said, rounds))),
        ],
        Some(t) => seq![
            ("model"@, json::json_quoted(model@)),
            ("messages"@, json::array_text(messages_json(said, rounds))),
            ("tools"@, tools_json(t)),
        ],
    };
    assert(json::members_of(o@) =~= head);
    let mapped = map_reasoning(openrouter, effort);
    if let Some(e) = &mapped.reasoning_effort {
        o.push(("reasoning_effort", json::quote(e.as_str())));
    }
    if let Some(e) = &mapped.nested_effort {
        let mut n: Vec<(&'static str, String)> = Vec::new();
        n.push(("effort", json::quote(e.as_str())));
        assert(json::members_of(n@) =~= seq![("effort"@, json::json_quoted(e@))]);
        o.push(("reasoning", json::object(&n)));
    }
    assert(json::members_of(o@) =~= head + effort_members(text::opt_view(*effort), openrouter));
    json::object(&o)
}

// ---------------------------------------------------------------------------
// Answers
// ---------------------------------------------------------------------------

/// The message of an error in an answer that came with a status of success.
pub open spec fn api_error(body: Seq<char>) -> Option<Seq<char>> {
    match json::json_member(body, "error"@) {
        Some(e) => json::string_member(e, "message"@),
        None => None,
    }
}

pub fn extract_api_error(body: &str) -> (r: Option<String>)
    ensures
        text::opt_view(r) == api_error(body@),
{
    match json::member(body, "error") {
        Some(e) => json::get_string(e.as_str(), "message"),
        None => None,
    }
}

/// The arguments of a call, from the text that the model gave.
pub open spec fn arguments_of(parsed: Result<Seq<char>, Seq<char>>, raw: Seq<char>) -> (
    Seq<char>,
    Option<llm::ArgsError>,
) {
    match parsed {
        Ok(value) => (value, None),
        Err(error) => (
            "null"@,
            Some(llm::ArgsError { error, raw: llm::echoed(raw, ECHO_MAX_CHARS as nat) }),
        ),
    }
}

pub open spec fn args_view(r: (String, Option<ToolCallArgsError>)) -> (
    Seq<char>,
    Option<llm::ArgsError>,
) {
    (
        r.0@,
        match r.1 {
            Some(e) => Some(llm::ArgsError { error: e.error@, raw: e.raw@ }),
            None => None,
        },
    )
}

/// The arguments of a call, given what was made of the text that the model gave.
pub fn take_arguments(parsed: Result<String, String>, raw: &str) -> (r: (
    String,
    Option<ToolCallArgsError>,
))
    ensures
        args_view(r) == arguments_of(json::result_view(parsed), raw@),
{
    match parsed {
        Ok(value) => (value, None),
        Err(error) => (
            "null".to_owned(),
            Some(ToolCallArgsError { error, raw: truncate_for_echo(raw, ECHO_MAX_CHARS) }),
        ),
    }
}

/// Parses the arguments of a call. Where they are no JSON, they are null, and the error is
/// kept with the beginning of the text.
pub fn parse_tool_call_arguments(raw: &str) -> (r: (String, Option<ToolCallArgsError>))
    ensures
        args_view(r) == arguments_of(json::json_parsed(raw@), raw@),
{
    take_arguments(json::parse(raw), raw)
}

/// A call as the API gives it. The arguments are text.
#[derive(Debug, Clone)]
pub struct ApiToolCall {
    pub id: String,
    pub name: String,
    pub arguments: String,
}

/// A message as the API gives it.
#[derive(Debug, Clone)]
pub struct ApiMessage {
    pub content: Option<String>,
    pub tool_calls: Option<Vec<ApiToolCall>>,
    pub reasoning_content: Option<String>,
}

/// The text of the first of some choices, or what is wrong with them.
pub open spec fn answer_in(choices: Seq<Option<Seq<char>>>) -> Result<Seq<char>, Seq<char>> {
    if choices.len() == 0 {
        Err("No choices in API response"@)
    } else {
        match choices[0] {
            Some(content) => Ok(content),
            None => Err("No text response from API"@),
        }
    }
}

/// The text of the first choice.
pub fn chat_answer(choices: &Vec<ApiMessage>) -> (r: Result<String, String>)
    ensures
        json::result_view(r) == if choices@.len() == 0 {
            Err("No choices in API response"@)
        } else {
            match text::opt_view(choices@[0].content) {
                Some(content) => Ok(content),
                None => Err("No text response from API"@),
            }
        },
        json::result_view(r) == answer_in(
            Seq::new(choices@.len(), |i: int| text::opt_view(choices@[i].content)),
        ),
{
    if choices.len() == 0 {
        return Err("No choices in API response".to_owned());
    }
    match &choices[0].content {
        Some(content) => Ok(content.clone()),
        None => Err("No text response from API".to_owned()),
    }
}

/// A call of the model.
pub open spec fn call_of(c: ApiToolCall) -> llm::Call {
    let args = arguments_of(json::json_parsed(c.arguments@), c.arguments@);
    llm::Call { id: c.id@, name: c.name@, arguments: args.0, parse_error: args.1 }
}

fn read_call(c: &ApiToolCall) -> (r: ToolCall)
    ensures
        r@ == call_of(*c),
{
    let (arguments, arguments_parse_error) = parse_tool_call_arguments(c.arguments.as_str());
    ToolCall { id: c.id.clone(), name: c.name.clone(), arguments, arguments_parse_error }
}

/// What the model answers: calls where it asks for any, else its text.
pub open spec fn tool_answer_is(m: ApiMessage, r: ToolChatCompletionResponse) -> bool {
    match m.tool_calls {
        Some(calls) => if calls@.len() > 0 {
            r matches ToolChatCompletionResponse::ToolCalls { calls: got, reasoning_content }
                && llm::calls_of(got@) == Seq::new(calls@.len(), |i: int| call_of(calls@[i]))
                && text::opt_view(reasoning_content) == text::opt_view(m.reasoning_content)
        } else {
            is_text(m, r)
        },
        None => is_text(m, r),
    }
}

pub open spec fn is_text(m: ApiMessage, r: ToolChatCompletionResponse) -> bool {
    r matches ToolChatCompletionResponse::Message(s) && s@ == match m.content {
        Some(content) => content@,
        None => Seq::empty(),
    }
}

/// What the model answers in its first choice.
pub fn tool_answer(choices: &Vec<ApiMessage>) -> (r: Result<ToolChatCompletionResponse, String>)
    ensures
        match r {
            Ok(answer) => choices@.len() > 0 && tool_answer_is(choices@[0], answer),
            Err(e) => choices@.len() == 0 && e@ == "No choices in API tool response"@,
        },
{
    if choices.len() == 0 {
        return Err("No choices in API tool response".to_owned());
    }
    let m = &choices[0];
    if let Some(api_calls) = &m.tool_calls {
        if api_calls.len() > 0 {
            let mut calls: Vec<ToolCall> = Vec::new();
            let mut i: usize = 0;
            while i < api_calls.len()
                invariant
                    i <= api_calls@.len(),
                    calls@.len() == i,
                    forall|j: int|
                        0 <= j < i ==> (#[trigger] calls@[j])@ == call_of(api_calls@[j]),
                decreases api_calls@.len() - i,
            {
                calls.push(read_call(&api_calls[i]));
                i = i + 1;
            }
            assert(llm::calls_of(calls@) =~= Seq::new(
                api_calls@.len(),
                |j: int| call_of(api_calls@[j]),
            ));
            return Ok(
                ToolChatCompletionResponse::ToolCalls {
                    calls,
                    reasoning_content: text::clone_opt(&m.reasoning_content),
                },
            );
        }
    }
    let content = match &m.content {
        Some(content) => content.clone(),
        None => String::new(),
    };
    assert(m.content is None ==> content@ =~= Seq::<char>::empty());
    Ok(ToolChatCompletionResponse::Message(content))
}


// ---------------------------------------------------------------------------
// What goes out and what comes back
// ---------------------------------------------------------------------------

/// A message is sent with its role as role and its text as content.
pub proof fn law_messages_are_sent(m: llm::Said)
    ensures
        text::has(message_json(m), "\""@ + "role"@ + "\":"@ + json::json_quoted(m.role)),
        text::has(message_json(m), "\""@ + "content"@ + "\":"@ + json::json_quoted(m.content)),
{
    let o = seq![("content"@, json::json_quoted(m.content)), ("role"@, json::json_quoted(m.role))];
    json::law_object_holds_each(o, 0);
    json::law_object_holds_each(o, 1);
    assert(o[0] == ("content"@, json::json_quoted(m.content)));
    assert(o[1] == ("role"@, json::json_quoted(m.role)));
}

/// A call is sent back with its id, its name and its arguments, and a result under the id of
/// its call.
pub proof fn law_calls_are_sent_back(c: llm::Call, r: llm::CallResult)
    ensures
        text::has(call_json(c), "\""@ + "id"@ + "\":"@ + json::json_quoted(c.id)),
        text::has(call_json(c), "\""@ + "name"@ + "\":"@ + json::json_quoted(c.name)),
        text::has(call_json(c), "\""@ + "arguments"@ + "\":"@ + json::json_quoted(c.arguments)),
        text::has(result_json(r), "\""@ + "tool_call_id"@ + "\":"@ + json::json_quoted(r.id)),
        text::has(result_json(r), "\""@ + "content"@ + "\":"@ + json::json_quoted(r.content)),
        text::has(result_json(r), "\""@ + "role"@ + "\":"@ + json::json_quoted("tool"@)),
{
    broadcast use text::group_parts;

    let f = seq![
        ("arguments"@, json::json_quoted(c.arguments)),
        ("name"@, json::json_quoted(c.name)),
    ];
    let inner = json::object_text(f);
    let o = seq![
        ("function"@, inner),
        ("id"@, json::json_quoted(c.id)),
        ("type"@, json::json_quoted("function"@)),
    ];
    assert(call_json(c) == json::object_text(o));
    json::law_object_holds_each(f, 0);
    json::law_object_holds_each(f, 1);
    json::law_object_holds_each(o, 0);
    json::law_object_holds_each(o, 1);
    let member = "\""@ + "function"@ + "\":"@ + inner;
    assert(o[0] == ("function"@, inner));
    assert(o[1] == ("id"@, json::json_quoted(c.id)));
    assert(f[0] == ("arguments"@, json::json_quoted(c.arguments)));
    assert(f[1] == ("name"@, json::json_quoted(c.name)));
    text::law_part_of_part(call_json(c), member, inner);
    let a = "\""@ + "arguments"@ + "\":"@ + json::json_quoted(c.arguments);
    let n = "\""@ + "name"@ + "\":"@ + json::json_quoted(c.name);
    text::law_part_of_part(call_json(c), inner, a);
    text::law_part_of_part(call_json(c), inner, n);
    let t = seq![
        ("content"@, json::json_quoted(r.content)),
        ("role"@, json::json_quoted("tool"@)),
        ("tool_call_id"@, json::json_quoted(r.id)),
    ];
    json::law_object_holds_each(t, 0);
    json::law_object_holds_each(t, 1);
    json::law_object_holds_each(t, 2);
    assert(t[0] == ("content"@, json::json_quoted(r.content)));
    assert(t[1] == ("role"@, json::json_quoted("tool"@)));
    assert(t[2] == ("tool_call_id"@, json::json_quoted(r.id)));
}

/// A turn with calls holds each of them, and the reasoning where there is one; a round holds
/// the turn and behind it the result of each call, in their order.
pub proof fn law_rounds_are_sent_back(r: llm::Round, i: int)
    ensures
        0 <= i < r.calls.len() ==> text::has(assistant_json(r), call_json(r.calls[i])),
        r.reasoning matches Some(t) ==> text::has(
            assistant_json(r),
            "\""@ + "reasoning_content"@ + "\":"@ + json::json_quoted(t),
        ),
        round_json(r).len() == 1 + r.results.len(),
        round_json(r)[0] == assistant_json(r),
        0 <= i < r.results.len() ==> round_json(r)[i + 1] == result_json(r.results[i]),
{
    broadcast use text::group_parts;

    let list = Seq::new(r.calls.len(), |j: int| call_json(r.calls[j]));
    let calls = json::array_text(list);
    let o = match r.reasoning {
        Some(t) => seq![
            ("content"@, "null"@),
            ("reasoning_content"@, json::json_quoted(t)),
            ("role"@, json::json_quoted("assistant"@)),
            ("tool_calls"@, calls),
        ],
        None => seq![
            ("content"@, "null"@),
            ("role"@, json::json_quoted("assistant"@)),
            ("tool_calls"@, calls),
        ],
    };
    assert(assistant_json(r) == json::object_text(o));
    let n = o.len() - 1;
    json::law_object_holds_each(o, n);
    json::law_object_holds_each(o, 1);
    assert(o[n] == ("tool_calls"@, calls));
    if 0 <= i < r.calls.len() {
        json::law_array_holds_each(list, i);
        assert(list[i] == call_json(r.calls[i]));
        let member = "\""@ + "tool_calls"@ + "\":"@ + calls;
        text::law_part_of_part(assistant_json(r), member, calls);
        text::law_part_of_part(assistant_json(r), calls, call_json(r.calls[i]));
    }
    if let Some(t) = r.reasoning {
        assert(o[1] == ("reasoning_content"@, json::json_quoted(t)));
    }
}

/// A tool is offered with its name, what it does and its parameters.
pub proof fn law_tools_are_offered(t: llm::Tool, tools: Seq<llm::Tool>, i: int)
    ensures
        text::has(tool_json(t), "\""@ + "name"@ + "\":"@ + json::json_quoted(t.name)),
        text::has(tool_json(t), "\""@ + "description"@ + "\":"@ + json::json_quoted(t.description)),
        text::has(tool_json(t), "\""@ + "parameters"@ + "\":"@ + t.parameters),
        0 <= i < tools.len() ==> text::has(tools_json(tools), tool_json(tools[i])),
{
    broadcast use text::group_parts;

    let f = seq![
        ("name"@, json::json_quoted(t.name)),
        ("description"@, json::json_quoted(t.description)),
        ("parameters"@, t.parameters),
    ];
    let inner = json::object_text(f);
    let o = seq![("type"@, json::json_quoted("function"@)), ("function"@, inner)];
    assert(tool_json(t) == json::object_text(o));
    json::law_object_holds_each(o, 1);
    assert(o[1] == ("function"@, inner));
    let member = "\""@ + "function"@ + "\":"@ + inner;
    text::law_part_of_part(tool_json(t), member, inner);
    json::law_object_holds_each(f, 0);
    json::law_object_holds_each(f, 1);
    json::law_object_holds_each(f, 2);
    assert(f[0] == ("name"@, json::json_quoted(t.name)));
    assert(f[1] == ("description"@, json::json_quoted(t.description)));
    assert(f[2] == ("parameters"@, t.parameters));
    let a = "\""@ + "name"@ + "\":"@ + json::json_quoted(t.name);
    let b = "\""@ + "description"@ + "\":"@ + json::json_quoted(t.description);
    let c = "\""@ + "parameters"@ + "\":"@ + t.parameters;
    text::law_part_of_part(tool_json(t), inner, a);
    text::law_part_of_part(tool_json(t), inner, b);
    text::law_part_of_part(tool_json(t), inner, c);
    if 0 <= i < tools.len() {
        let list = Seq::new(tools.len(), |j: int| tool_json(tools[j]));
        json::law_array_holds_each(list, i);
        assert(list[i] == tool_json(tools[i]));
    }
}

/// A request names the model and holds all messages, the tools where they are offered, and
/// how much to reason where that is said: for OpenRouter in an object of its own, for others
/// in a field.
pub proof fn law_requests_hold_everything(
    model: Seq<char>,
    messages: Seq<llm::Said>,
    tools: Option<Seq<llm::Tool>>,
    rounds: Seq<llm::Round>,
    effort: Option<Seq<char>>,
    openrouter: bool,
)
    ensures
        ({
            let r = request_json(model, messages, tools, rounds, effort, openrouter);
            &&& text::has(r, "\""@ + "model"@ + "\":"@ + json::json_quoted(model))
            &&& text::has(
                r,
                "\""@ + "messages"@ + "\":"@ + json::array_text(messages_json(messages, rounds)),
            )
            &&& tools matches Some(t) ==> text::has(r, "\""@ + "tools"@ + "\":"@ + tools_json(t))
            &&& effort matches Some(e) ==> if openrouter {
                text::has(
                    r,
                    "\""@ + "reasoning"@ + "\":"@ + json::object_text(
                        seq![("effort"@, json::json_quoted(e))],
                    ),
                )
            } else {
                text::has(r, "\""@ + "reasoning_effort"@ + "\":"@ + json::json_quoted(e))
            }
        }),
        effort is None ==> effort_members(effort, openrouter).len() == 0,
{
    let list = json::array_text(messages_json(messages, rounds));
    let head = match tools {
        None => seq![("model"@, json::json_quoted(model)), ("messages"@, list)],
        Some(t) => seq![
            ("model"@, json::json_quoted(model)),
            ("messages"@, list),
            ("tools"@, tools_json(t)),
        ],
    };
    let o = head + effort_members(effort, openrouter);
    json::law_object_holds_each(o, 0);
    json::law_object_holds_each(o, 1);
    assert(o[0] == ("model"@, json::json_quoted(model)));
    assert(o[1] == ("messages"@, list));
    if let Some(t) = tools {
        json::law_object_holds_each(o, 2);
        assert(o[2] == ("tools"@, tools_json(t)));
    }
    if let Some(e) = effort {
        let n = head.len() as int;
        json::law_object_holds_each(o, n);
        if openrouter {
            assert(o[n] == ("reasoning"@, json::object_text(
                seq![("effort"@, json::json_quoted(e))],
            )));
        } else {
            assert(o[n] == ("reasoning_effort"@, json::json_quoted(e)));
        }
    }
}

/// Arguments that can be read are taken as they are; of others the error is kept, with at
/// most 512 characters of the text and a note of how many more there are.
pub proof fn law_arguments_are_read(value: Seq<char>, error: Seq<char>, raw: Seq<char>)
    ensures
        arguments_of(Ok(value), raw) == (value, None::<llm::ArgsError>),
        arguments_of(Err(error), raw).0 == "null"@,
        arguments_of(Err(error), raw).1 matches Some(e) && e.error == error,
        raw.len() <= 512 ==> (arguments_of(Err(error), raw).1 matches Some(e) && e.raw == raw),
        raw.len() > 512 ==> (arguments_of(Err(error), raw).1 matches Some(e) && text::has_prefix(
            e.raw,
            raw.take(512),
        ) && text::has(e.raw, text::decimal((raw.len() - 512) as nat))),
{
    broadcast use text::group_parts;

}

/// The answer is the text of the first choice; without choices or without a text it is an
/// error.
pub proof fn law_first_choice_counts(choices: Seq<Option<Seq<char>>>)
    ensures
        choices.len() == 0 ==> answer_in(choices) is Err,
        choices.len() > 0 ==> (choices[0] matches Some(s) ==> answer_in(choices) == Ok::<
            Seq<char>,
            Seq<char>,
        >(s)) && (choices[0] is None ==> answer_in(choices) is Err),
{
}

/// A model that asks for calls gets them carried out, under the ids, names and arguments that
/// it gave; otherwise its text is the answer.
pub proof fn law_calls_are_understood(m: ApiMessage, r: ToolChatCompletionResponse)
    requires
        tool_answer_is(m, r),
    ensures
        m.tool_calls matches Some(calls) ==> calls@.len() > 0 ==> {
            &&& r matches ToolChatCompletionResponse::ToolCalls { calls: got, reasoning_content }
            &&& got@.len() == calls@.len()
            &&& text::opt_view(reasoning_content) == text::opt_view(m.reasoning_content)
            &&& forall|i: int|
                0 <= i < got@.len() ==> (#[trigger] got@[i])@.id == calls@[i].id@ && got@[i]@.name
                    == calls@[i].name@ && (json::json_parsed(calls@[i].arguments@) matches Ok(v)
                    ==> got@[i]@.arguments == v && got@[i]@.parse_error is None) && (
                json::json_parsed(calls@[i].arguments@) is Err ==> got@[i]@.parse_error is Some)
        },
        m.tool_calls is None ==> (r matches ToolChatCompletionResponse::Message(s) && (
        m.content matches Some(c) ==> s@ == c@) && (m.content is None ==> s@.len() == 0)),
        m.tool_calls matches Some(calls) ==> calls@.len() == 0 ==> r is Message,
{
    if let Some(calls) = m.tool_calls {
        if calls@.len() > 0 {
            if let ToolChatCompletionResponse::ToolCalls { calls: got, .. } = r {
                let all = llm::calls_of(got@);
                assert(all.len() == calls@.len());
                assert forall|i: int| 0 <= i < got@.len() implies (#[trigger] got@[i])@ == call_of(
                    calls@[i],
                ) by {
                    assert(all[i] == got@[i]@);
                }
            }
        }
    }
}

/// An error in an answer is told by its message.
pub proof fn law_errors_are_found(body: Seq<char>)
    ensures
        json::json_member(body, "error"@) matches Some(e) ==> api_error(body) == json::string_member(
            e,
            "message"@,
        ),
        json::json_member(body, "error"@) is None ==> api_error(body) is None,
{
}

} // verus!

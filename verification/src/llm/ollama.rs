//! The API of Ollama: what is sent, and how answers are read.
use vstd::prelude::*;
use crate::json;
use crate::llm;
use crate::llm::openai;
use crate::llm::openai::{build_tools, plain_message};
use crate::llm::{
    Message, ToolCall, ToolCallRound, ToolChatCompletionResponse, ToolDefinition, ToolResultMessage,
};
use crate::text;

verus! {

pub const DEFAULT_BASE_URL: &'static str = "http://localhost:11434";

pub const SERVICE: &'static str = "Ollama API";

// ---------------------------------------------------------------------------
// Messages
// ---------------------------------------------------------------------------

/// A call as it is sent back. The arguments are a JSON value.
pub open spec fn call_json(c: llm::Call) -> Seq<char> {
    json::object_text(
        seq![
            (
                "function"@,
                json::object_text(
                    seq![("arguments"@, c.arguments), ("name"@, json::json_quoted(c.name))],
                ),
            ),
        ],
    )
}

fn sent_call(c: &ToolCall) -> (r: String)
    ensures
        r@ == call_json(c@),
{
    let mut f: Vec<(&'static str, String)> = Vec::new();
    f.push(("arguments", c.arguments.clone()));
    f.push(("name", json::quote(c.name.as_str())));
    assert(json::members_of(f@) =~= seq![
        ("arguments"@, c.arguments@),
        ("name"@, json::json_quoted(c.name@)),
    ]);
    let function = json::object(&f);
    let ghost function_text = function@;
    let mut o: Vec<(&'static str, String)> = Vec::new();
    o.push(("function", function));
    assert(json::members_of(o@) =~= seq![("function"@, function_text)]);
    json::object(&o)
}

/// The turn of the assistant with its calls.
pub open spec fn assistant_json(r: llm::Round) -> Seq<char> {
    json::object_text(
        seq![
            ("content"@, "\"\""@),
            ("role"@, json::json_quoted("assistant"@)),
            (
                "tool_calls"@,
                json::array_text(Seq::new(r.calls.len(), |i: int| call_json(r.calls[i]))),
            ),
        ],
    )
}

fn assistant_turn(round: &ToolCallRound) -> (r: String)
    ensures
        r@ == assistant_json(round@),
{
    let ghost all = llm::calls_of(round.calls@);
    let mut calls: Vec<String> = Vec::new();
    let mut i: usize = 0;
    while i < round.calls.len()
        invariant
            all == llm::calls_of(round.calls@),
            i <= round.calls@.len(),
            calls@.len() == i,
            forall|j: int| 0 <= j < i ==> calls@[j]@ == call_json(#[trigger] all[j]),
        decreases round.calls@.len() - i,
    {
        assert(all[i as int] == round.calls@[i as int]@);
        calls.push(sent_call(&round.calls[i]));
        i = i + 1;
    }
    assert(text::views(calls@) =~= Seq::new(all.len(), |j: int| call_json(all[j])));
    let mut o: Vec<(&'static str, String)> = Vec::new();
    o.push(("content", "\"\"".to_owned()));
    o.push(("role", json::quote("assistant")));
    o.push(("tool_calls", json::array(&calls)));
    assert(json::members_of(o@) =~= seq![
        ("content"@, "\"\""@),
        ("role"@, json::json_quoted("assistant"@)),
        ("tool_calls"@, json::array_text(Seq::new(all.len(), |j: int| call_json(all[j])))),
    ]);
    json::object(&o)
}

/// The result of a call, under the name of the tool.
pub open spec fn result_json(r: llm::CallResult) -> Seq<char> {
    json::object_text(
        seq![
            ("content"@, json::json_quoted(r.content)),
            ("role"@, json::json_quoted("tool"@)),
            ("tool_name"@, json::json_quoted(r.name)),
        ],
    )
}

fn tool_turn(t: &ToolResultMessage) -> (r: String)
    ensures
        r@ == result_json(t@),
{
    let mut o: Vec<(&'static str, String)> = Vec::new();
    o.push(("content", json::quote(t.content.as_str())));
    o.push(("role", json::quote("tool")));
    o.push(("tool_name", json::quote(t.tool_name.as_str())));
    assert(json::members_of(o@) =~= seq![
        ("content"@, json::json_quoted(t.content@)),
        ("role"@, json::json_quoted("tool"@)),
        ("tool_name"@, json::json_quoted(t.tool_name@)),
    ]);
    json::object(&o)
}

/// A round: the turn of the assistant, and after it the results of its calls.
pub open spec fn round_json(r: llm::Round) -> Seq<Seq<char>> {
    seq![assistant_json(r)] + Seq::new(r.results.len(), |i: int| result_json(r.results[i]))
}

/// Some rounds, one after the other.
pub open spec fn rounds_json(rounds: Seq<llm::Round>) -> Seq<Seq<char>>
    decreases rounds.len(),
{
    if rounds.len() == 0 {
        Seq::empty()
    } else {
        rounds_json(rounds.drop_last()) + round_json(rounds.last())
    }
}

/// All messages of a request: those of the conversation, and then the rounds.
pub open spec fn messages_json(messages: Seq<llm::Said>, rounds: Seq<llm::Round>) -> Seq<Seq<char>> {
    Seq::new(messages.len(), |i: int| openai::message_json(messages[i])) + rounds_json(rounds)
}

/// Adds the messages of a round to those so far.
fn add_round(out: &mut Vec<String>, round: &ToolCallRound)
    ensures
        text::views(final(out)@) == text::views(old(out)@) + round_json(round@),
{
    let ghost start = text::views(out@);
    let ghost all = llm::results_of(round.results@);
    out.push(assistant_turn(round));
    assert(text::views(out@) =~= start + seq![assistant_json(round@)]);
    let mut i: usize = 0;
    assert(seq![assistant_json(round@)] + Seq::new(0, |j: int| result_json(all[j])) =~= seq![
        assistant_json(round@),
    ]);
    while i < round.results.len()
        invariant
            all == llm::results_of(round.results@),
            i <= round.results@.len(),
            text::views(out@) == start + (seq![assistant_json(round@)] + Seq::new(
                i as nat,
                |j: int| result_json(all[j]),
            )),
        decreases round.results@.len() - i,
    {
        let ghost before = text::views(out@);
        assert(all[i as int] == round.results@[i as int]@);
        out.push(tool_turn(&round.results[i]));
        proof {
            assert(text::views(out@) =~= before.push(result_json(all[i as int])));
            assert(Seq::new((i + 1) as nat, |j: int| result_json(all[j])) =~= Seq::new(
                i as nat,
                |j: int| result_json(all[j]),
            ).push(result_json(all[i as int])));
            assert(text::views(out@) =~= start + (seq![assistant_json(round@)] + Seq::new(
                (i + 1) as nat,
                |j: int| result_json(all[j]),
            )));
        }
        i = i + 1;
    }
}

/// The messages of a request, as JSON texts. The turn that asks for calls comes before
/// their results.
pub fn build_ollama_messages(messages: &Vec<Message>, prior_rounds: &Vec<ToolCallRound>) -> (r: Vec<
    String,
>)
    ensures
        text::views(r@) == messages_json(
            llm::messages_of(messages@),
            llm::rounds_of(prior_rounds@),
        ),
{
    let ghost said = llm::messages_of(messages@);
    let ghost rounds = llm::rounds_of(prior_rounds@);
    let mut out: Vec<String> = Vec::new();
    let mut i: usize = 0;
    while i < messages.len()
        invariant
            said == llm::messages_of(messages@),
            i <= messages@.len(),
            out@.len() == i,
            forall|j: int| 0 <= j < i ==> out@[j]@ == openai::message_json(#[trigger] said[j]),
        decreases messages@.len() - i,
    {
        assert(said[i as int] == messages@[i as int]@);
        out.push(plain_message(&messages[i]));
        i = i + 1;
    }
    let ghost base = Seq::new(said.len(), |j: int| openai::message_json(said[j]));
    proof {
        assert(text::views(out@) =~= base);
        assert(rounds.take(0) =~= Seq::<llm::Round>::empty());
        assert(base + rounds_json(rounds.take(0)) =~= base);
    }
    let mut k: usize = 0;
    while k < prior_rounds.len()
        invariant
            rounds == llm::rounds_of(prior_rounds@),
            k <= prior_rounds@.len(),
            text::views(out@) == base + rounds_json(rounds.take(k as int)),
        decreases prior_rounds@.len() - k,
    {
        let ghost before = text::views(out@);
        proof {
            assert(rounds.take(k + 1).drop_last() =~= rounds.take(k as int));
            assert(rounds.take(k + 1).last() == prior_rounds@[k as int]@);
        }
        add_round(&mut out, &prior_rounds[k]);
        assert(text::views(out@) =~= base + rounds_json(rounds.take(k + 1)));
        k = k + 1;
    }
    assert(rounds.take(k as int) =~= rounds);
    out
}

/// The conversation comes first and stays as it is; each round then adds the turn of the
/// assistant and one message for each result.
pub proof fn law_rounds_follow_messages(messages: Seq<llm::Said>, rounds: Seq<llm::Round>)
    ensures
        messages_json(messages, rounds).len() == messages.len() + openai::rounds_len(rounds),
        forall|i: int|
            0 <= i < messages.len() ==> #[trigger] messages_json(messages, rounds)[i]
                == openai::message_json(messages[i]),
        rounds.len() > 0 ==> messages_json(messages, rounds) == messages_json(
            messages,
            rounds.drop_last(),
        ) + round_json(rounds.last()),
    decreases rounds.len(),
{
    if rounds.len() > 0 {
        law_rounds_follow_messages(messages, rounds.drop_last());
        assert(messages_json(messages, rounds) =~= messages_json(messages, rounds.drop_last())
            + round_json(rounds.last()));
    }
}

// ---------------------------------------------------------------------------
// Requests
// ---------------------------------------------------------------------------

/// A request. Tools are given where they are offered. The answer comes in one piece.
pub open spec fn request_json(
    model: Seq<char>,
    messages: Seq<llm::Said>,
    tools: Option<Seq<llm::Tool>>,
    rounds: Seq<llm::Round>,
) -> Seq<char> {
    json::object_text(
        match tools {
            None => seq![
                ("model"@, json::json_quoted(model)),
                ("messages"@, json::array_text(messages_json(messages, rounds))),
                ("stream"@, "false"@),
            ],
            Some(t) => seq![
                ("model"@, json::json_quoted(model)),
                ("messages"@, json::array_text(messages_json(messages, rounds))),
                ("tools"@, openai::tools_json(t)),
                ("stream"@, "false"@),
            ],
        },
    )
}

/// The body of a request.
pub fn build_request(
    model: &str,
    messages: &Vec<Message>,
    tools: &Option<Vec<ToolDefinition>>,
    prior_rounds: &Vec<ToolCallRound>,
) -> (r: String)
    ensures
        r@ == request_json(
            model@,
            llm::messages_of(messages@),
            openai::opt_tools(*tools),
            llm::rounds_of(prior_rounds@),
        ),
{
    let ghost said = llm::messages_of(messages@);
    let ghost rounds = llm::rounds_of(prior_rounds@);
    let list = build_ollama_messages(messages, prior_rounds);
    let mut o: Vec<(&'static str, String)> = Vec::new();
    o.push(("model", json::quote(model)));
    o.push(("messages", json::array(&list)));
    if let Some(t) = tools {
        o.push(("tools", build_tools(t)));
    }
    o.push(("stream", "false".to_owned()));
    proof {
        match openai::opt_tools(*tools) {
            None => {
                assert(json::members_of(o@) =~= seq![
                    ("model"@, json::json_quoted(model@)),
                    ("messages"@, json::array_text(messages_json(said, rounds))),
                    ("stream"@, "false"@),
                ]);
            },
            Some(t) => {
                assert(json::members_of(o@) =~= seq![
                    ("model"@, json::json_quoted(model@)),
                    ("messages"@, json::array_text(messages_json(said, rounds))),
                    ("tools"@, openai::tools_json(t)),
                    ("stream"@, "false"@),
                ]);
            },
        }
    }
    json::object(&o)
}

// ---------------------------------------------------------------------------
// Answers
// ---------------------------------------------------------------------------

/// A call as the API gives it. The arguments are a JSON value, as text.
#[derive(Debug, Clone)]
pub struct ApiToolCall {
    pub name: String,
    pub arguments: String,
}

/// A message as the API gives it.
#[derive(Debug, Clone)]
pub struct ApiMessage {
    pub content: Option<String>,
    pub tool_calls: Option<Vec<ApiToolCall>>,
}

/// A call of the model. The API gives no id, so it is numbered.
pub open spec fn call_of(c: ApiToolCall, i: int) -> llm::Call {
    llm::Call {
        id: "call_"@ + text::decimal(i as nat),
        name: c.name@,
        arguments: c.arguments@,
        parse_error: None,
    }
}

fn read_call(c: &ApiToolCall, i: usize) -> (r: ToolCall)
    ensures
        r@ == call_of(*c, i as int),
{
    let mut id = "call_".to_owned();
    id.push_str(text::from_usize(i).as_str());
    ToolCall {
        id,
        name: c.name.clone(),
        arguments: c.arguments.clone(),
        arguments_parse_error: None,
    }
}

pub open spec fn is_text(m: ApiMessage, r: ToolChatCompletionResponse) -> bool {
    r matches ToolChatCompletionResponse::Message(s) && s@ == match m.content {
        Some(content) => content@,
        None => Seq::empty(),
    }
}

/// What the model answers: calls where it asks for any, else its text.
pub open spec fn tool_answer_is(m: ApiMessage, r: ToolChatCompletionResponse) -> bool {
    match m.tool_calls {
        Some(calls) => if calls@.len() > 0 {
            r matches ToolChatCompletionResponse::ToolCalls { calls: got, reasoning_content }
                && llm::calls_of(got@) == Seq::new(calls@.len(), |i: int| call_of(calls@[i], i))
                && reasoning_content is None
        } else {
            is_text(m, r)
        },
        None => is_text(m, r),
    }
}

/// What the model answers.
pub fn tool_answer(m: &ApiMessage) -> (r: ToolChatCompletionResponse)
    ensures
        tool_answer_is(*m, r),
{
    if let Some(api_calls) = &m.tool_calls {
        if api_calls.len() > 0 {
            let mut calls: Vec<ToolCall> = Vec::new();
            let mut i: usize = 0;
            while i < api_calls.len()
                invariant
                    i <= api_calls@.len(),
                    calls@.len() == i,
                    forall|j: int|
                        0 <= j < i ==> (#[trigger] calls@[j])@ == call_of(api_calls@[j], j),
                decreases api_calls@.len() - i,
            {
                calls.push(read_call(&api_calls[i], i));
                i = i + 1;
            }
            assert(llm::calls_of(calls@) =~= Seq::new(
                api_calls@.len(),
                |j: int| call_of(api_calls@[j], j),
            ));
            return ToolChatCompletionResponse::ToolCalls { calls, reasoning_content: None };
        }
    }
    let content = match &m.content {
        Some(content) => content.clone(),
        None => String::new(),
    };
    assert(m.content is None ==> content@ =~= Seq::<char>::empty());
    ToolChatCompletionResponse::Message(content)
}


/// A call is sent back with its name and its arguments, and a result under the name of its
/// tool.
pub proof fn law_calls_are_sent_back(c: llm::Call, r: llm::CallResult)
    ensures
        text::has(call_json(c), "\""@ + "name"@ + "\":"@ + json::json_quoted(c.name)),
        text::has(call_json(c), "\""@ + "arguments"@ + "\":"@ + c.arguments),
        text::has(result_json(r), "\""@ + "tool_name"@ + "\":"@ + json::json_quoted(r.name)),
        text::has(result_json(r), "\""@ + "content"@ + "\":"@ + json::json_quoted(r.content)),
        text::has(result_json(r), "\""@ + "role"@ + "\":"@ + json::json_quoted("tool"@)),
{
    broadcast use text::group_parts;

    let f = seq![("arguments"@, c.arguments), ("name"@, json::json_quoted(c.name))];
    let inner = json::object_text(f);
    let o = seq![("function"@, inner)];
    assert(call_json(c) == json::object_text(o));
    json::law_object_holds_each(f, 0);
    json::law_object_holds_each(f, 1);
    json::law_object_holds_each(o, 0);
    assert(o[0] == ("function"@, inner));
    assert(f[0] == ("arguments"@, c.arguments));
    assert(f[1] == ("name"@, json::json_quoted(c.name)));
    let member = "\""@ + "function"@ + "\":"@ + inner;
    text::law_part_of_part(call_json(c), member, inner);
    let a = "\""@ + "arguments"@ + "\":"@ + c.arguments;
    let n = "\""@ + "name"@ + "\":"@ + json::json_quoted(c.name);
    text::law_part_of_part(call_json(c), inner, a);
    text::law_part_of_part(call_json(c), inner, n);
    let t = seq![
        ("content"@, json::json_quoted(r.content)),
        ("role"@, json::json_quoted("tool"@)),
        ("tool_name"@, json::json_quoted(r.name)),
    ];
    json::law_object_holds_each(t, 0);
    json::law_object_holds_each(t, 1);
    json::law_object_holds_each(t, 2);
    assert(t[0] == ("content"@, json::json_quoted(r.content)));
    assert(t[1] == ("role"@, json::json_quoted("tool"@)));
    assert(t[2] == ("tool_name"@, json::json_quoted(r.name)));
}

/// A turn with calls holds each of them; a round holds the turn and behind it the result of
/// each call, in their order.
pub proof fn law_rounds_are_sent_back(r: llm::Round, i: int)
    ensures
        0 <= i < r.calls.len() ==> text::has(assistant_json(r), call_json(r.calls[i])),
        round_json(r).len() == 1 + r.results.len(),
        round_json(r)[0] == assistant_json(r),
        0 <= i < r.results.len() ==> round_json(r)[i + 1] == result_json(r.results[i]),
{
    broadcast use text::group_parts;

    let list = Seq::new(r.calls.len(), |j: int| call_json(r.calls[j]));
    let calls = json::array_text(list);
    let o = seq![
        ("content"@, "\"\""@),
        ("role"@, json::json_quoted("assistant"@)),
        ("tool_calls"@, calls),
    ];
    assert(assistant_json(r) == json::object_text(o));
    json::law_object_holds_each(o, 2);
    assert(o[2] == ("tool_calls"@, calls));
    if 0 <= i < r.calls.len() {
        json::law_array_holds_each(list, i);
        assert(list[i] == call_json(r.calls[i]));
        let member = "\""@ + "tool_calls"@ + "\":"@ + calls;
        text::law_part_of_part(assistant_json(r), member, calls);
        text::law_part_of_part(assistant_json(r), calls, call_json(r.calls[i]));
    }
}

/// A request names the model, holds all messages and the tools where they are offered, and
/// asks for the answer in one piece.
pub proof fn law_requests_hold_everything(
    model: Seq<char>,
    messages: Seq<llm::Said>,
    tools: Option<Seq<llm::Tool>>,
    rounds: Seq<llm::Round>,
)
    ensures
        ({
            let r = request_json(model, messages, tools, rounds);
            &&& text::has(r, "\""@ + "model"@ + "\":"@ + json::json_quoted(model))
            &&& text::has(
                r,
                "\""@ + "messages"@ + "\":"@ + json::array_text(messages_json(messages, rounds)),
            )
            &&& tools matches Some(t) ==> text::has(
                r,
                "\""@ + "tools"@ + "\":"@ + openai::tools_json(t),
            )
            &&& text::has(r, "\""@ + "stream"@ + "\":"@ + "false"@)
        }),
{
    let list = json::array_text(messages_json(messages, rounds));
    let o = match tools {
        None => seq![
            ("model"@, json::json_quoted(model)),
            ("messages"@, list),
            ("stream"@, "false"@),
        ],
        Some(t) => seq![
            ("model"@, json::json_quoted(model)),
            ("messages"@, list),
            ("tools"@, openai::tools_json(t)),
            ("stream"@, "false"@),
        ],
    };
    let n = o.len() - 1;
    json::law_object_holds_each(o, 0);
    json::law_object_holds_each(o, 1);
    json::law_object_holds_each(o, 2);
    json::law_object_holds_each(o, n);
    assert(o[0] == ("model"@, json::json_quoted(model)));
    assert(o[1] == ("messages"@, list));
    assert(o[n] == ("stream"@, "false"@));
    if let Some(t) = tools {
        assert(o[2] == ("tools"@, openai::tools_json(t)));
    }
}

/// A model that asks for calls gets them carried out, numbered in their order and under the
/// names and arguments that it gave; otherwise its text is the answer.
pub proof fn law_calls_are_understood(m: ApiMessage, r: ToolChatCompletionResponse)
    requires
        tool_answer_is(m, r),
    ensures
        m.tool_calls matches Some(calls) ==> calls@.len() > 0 ==> {
            &&& r matches ToolChatCompletionResponse::ToolCalls { calls: got, reasoning_content }
            &&& got@.len() == calls@.len()
            &&& reasoning_content is None
            &&& forall|i: int|
                0 <= i < got@.len() ==> (#[trigger] got@[i])@.id == "call_"@ + text::decimal(
                    i as nat,
                ) && got@[i]@.name == calls@[i].name@ && got@[i]@.arguments == calls@[i].arguments@
                    && got@[i]@.parse_error is None
        },
        m.tool_calls is None ==> (r matches ToolChatCompletionResponse::Message(s) && (
        m.content matches Some(c) ==> s@ == c@) && (m.content is None ==> s@.len() == 0)),
        m.tool_calls matches Some(calls) ==> calls@.len() == 0 ==> r is Message,
{
    if let Some(calls) = m.tool_calls {
        if calls@.len() > 0 {
            if let ToolChatCompletionResponse::ToolCalls { calls: got, .. } = r {
                let all = llm::calls_of(got@);
                assert(all.len() == calls@.len());
                assert forall|i: int| 0 <= i < got@.len() implies (#[trigger] got@[i])@ == call_of(
                    calls@[i],
                    i,
                ) by {
                    assert(all[i] == got@[i]@);
                }
            }
        }
    }
}

} // verus!

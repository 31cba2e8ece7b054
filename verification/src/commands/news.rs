//! The commands `!news` and `!tldr`, which sum up the chat.
use vstd::prelude::*;
use crate::chat_history;
use crate::chat_history::{ChatHistoryBuffer, ChatHistoryEntry};
use crate::commands::{CommandContext, Completion, FAILURE_MSG, TIMEOUT_MSG};
use crate::cooldown;
use crate::cooldown::{waiting_message, PerUserCooldown};
use crate::llm;
use crate::llm::Message;
use crate::text;
use crate::time::{Instant, Timestamp};
use crate::util;
use crate::util::{truncate_response, MAX_RESPONSE_LENGTH};
use crate::whisper::WHISPER_MAX_CHARS;

verus! {

pub const NEWS_PREFIX: &'static str = "ICYMI:";

pub const NEWS_SYSTEM_PROMPT: &'static str =
    "Du fasst Twitch-Chat-Verläufe hilfreich zusammen. Antworte auf Deutsch, erfinde keine Details und konzentriere dich auf Themen, Highlights und wichtige Antworten. Beginne die Antwort mit \"ICYMI:\". Wenn du mehrere Themen auflistest, trenne sie mit \" | \". Bleibe kompakt, aber du musst dich nicht auf eine einzelne Twitch-Chatnachricht beschränken.";

pub const TLDR_SYSTEM_PROMPT: &'static str =
    "Du erstellst ein hilfreiches TLDR der letzten verfügbaren 24 Stunden eines Twitch-Chats. Antworte auf Deutsch, erfinde keine Details und strukturiere die wichtigsten Themen, Highlights, Fragen/Antworten, Running Gags und offenen Punkte knapp. Beginne die Antwort mit \"In den letzten 24h:\".";

pub const EMPTY_HISTORY_MESSAGE: &'static str =
    "Ich habe noch keine Chat-Historie für eine Zusammenfassung FDM";

pub const NO_NEW_MESSAGES_MESSAGE: &'static str =
    "Seit deiner letzten Nachricht ist noch nichts Neues passiert FDM";

pub const NO_TLDR_MESSAGES_MESSAGE: &'static str = "chat dead no tldr Deadge";

/// How many of the last messages are always taken.
pub const RECENT_USER_CONTEXT_MESSAGES: usize = 20;

/// A day, in nanoseconds.
pub const TLDR_WINDOW: i128 = 86_400_000_000_000;

/// Which of the two commands is run.
#[derive(Debug, Clone, Copy, PartialEq, Eq, Structural)]
pub enum NewsMode {
    News,
    Tldr,
}

impl NewsMode {
    pub fn trigger(self) -> (r: &'static str)
        ensures
            r@ == match self {
                NewsMode::News => "!news"@,
                NewsMode::Tldr => "!tldr"@,
            },
    {
        match self {
            NewsMode::News => "!news",
            NewsMode::Tldr => "!tldr",
        }
    }

    pub open spec fn prompt(self) -> Seq<char> {
        match self {
            NewsMode::News => NEWS_SYSTEM_PROMPT@,
            NewsMode::Tldr => TLDR_SYSTEM_PROMPT@,
        }
    }

    pub fn system_prompt(self) -> (r: &'static str)
        ensures
            r@ == self.prompt(),
    {
        match self {
            NewsMode::News => NEWS_SYSTEM_PROMPT,
            NewsMode::Tldr => TLDR_SYSTEM_PROMPT,
        }
    }

    pub open spec fn empty_text(self) -> Seq<char> {
        match self {
            NewsMode::News => EMPTY_HISTORY_MESSAGE@,
            NewsMode::Tldr => NO_TLDR_MESSAGES_MESSAGE@,
        }
    }

    pub fn empty_message(self) -> (r: &'static str)
        ensures
            r@ == self.empty_text(),
    {
        match self {
            NewsMode::News => EMPTY_HISTORY_MESSAGE,
            NewsMode::Tldr => NO_TLDR_MESSAGES_MESSAGE,
        }
    }

    pub open spec fn nothing_new_text(self) -> Seq<char> {
        match self {
            NewsMode::News => NO_NEW_MESSAGES_MESSAGE@,
            NewsMode::Tldr => NO_TLDR_MESSAGES_MESSAGE@,
        }
    }

    pub fn nothing_new_message(self) -> (r: &'static str)
        ensures
            r@ == self.nothing_new_text(),
    {
        match self {
            NewsMode::News => NO_NEW_MESSAGES_MESSAGE,
            NewsMode::Tldr => NO_TLDR_MESSAGES_MESSAGE,
        }
    }
}

// ---------------------------------------------------------------------------
// Which messages are summed up
// ---------------------------------------------------------------------------

/// The messages without the one that holds the command itself.
pub open spec fn without_current(
    lines: Seq<chat_history::Line>,
    user: Seq<char>,
    message: Seq<char>,
) -> Seq<chat_history::Line> {
    if lines.len() > 0 && text::same_ignore_case(lines.last().username, user) && lines.last().text
        == message {
        lines.drop_last()
    } else {
        lines
    }
}

/// The position after the last message of a user; 0 where they wrote none.
pub open spec fn after_last_of(lines: Seq<chat_history::Line>, user: Seq<char>) -> nat
    decreases lines.len(),
{
    if lines.len() == 0 {
        0
    } else if text::same_ignore_case(lines.last().username, user) {
        lines.len()
    } else {
        after_last_of(lines.drop_last(), user)
    }
}

/// Where the news start: after the last message of the user, unless that is one of the
/// newest.
pub open spec fn news_start(lines: Seq<chat_history::Line>, user: Seq<char>) -> nat {
    let after = after_last_of(lines, user);
    if after > 0 && after - 1 < lines.len() - RECENT_USER_CONTEXT_MESSAGES {
        after
    } else {
        0
    }
}

pub open spec fn spoken(line: chat_history::Line) -> Seq<char> {
    line.username + ": "@ + line.text
}

pub open spec fn all_spoken(lines: Seq<chat_history::Line>) -> Seq<Seq<char>> {
    Seq::new(lines.len(), |i: int| spoken(lines[i]))
}

/// The messages that are at most a day old.
pub open spec fn of_last_day(lines: Seq<chat_history::Line>, now: int) -> Seq<chat_history::Line>
    decreases lines.len(),
{
    if lines.len() == 0 {
        Seq::empty()
    } else {
        let rest = of_last_day(lines.drop_last(), now);
        if lines.last().timestamp@ >= now - TLDR_WINDOW {
            rest.push(lines.last())
        } else {
            rest
        }
    }
}

/// The lines that are summed up for a user; nothing where there is no history besides
/// the command itself.
pub open spec fn relevant(
    mode: NewsMode,
    history: Seq<chat_history::Line>,
    user: Seq<char>,
    message: Seq<char>,
    now: int,
) -> Option<Seq<Seq<char>>> {
    let lines = without_current(history, user, message);
    if lines.len() == 0 {
        None
    } else {
        Some(
            all_spoken(
                match mode {
                    NewsMode::News => lines.skip(news_start(lines, user) as int),
                    NewsMode::Tldr => of_last_day(lines, now),
                },
            ),
        )
    }
}

fn speak(e: &ChatHistoryEntry) -> (r: String)
    ensures
        r@ == spoken(e@),
{
    let mut s = e.username.clone();
    s.push_str(": ");
    s.push_str(e.text.as_str());
    s
}

/// The position after the last of the first `n` messages that a user wrote.
fn find_after_last(entries: &Vec<ChatHistoryEntry>, n: usize, user: &str) -> (r: usize)
    requires
        n <= entries@.len(),
    ensures
        r == after_last_of(chat_history::lines_of(entries@).take(n as int), user@),
        r <= n,
{
    let ghost all = chat_history::lines_of(entries@);
    let mut i: usize = n;
    while i > 0
        invariant
            all == chat_history::lines_of(entries@),
            i <= n <= entries@.len(),
            after_last_of(all.take(n as int), user@) == after_last_of(all.take(i as int), user@),
        decreases i,
    {
        assert(all.take(i as int).drop_last() =~= all.take(i - 1));
        assert(all.take(i as int).last() == entries@[i - 1]@);
        if text::eq_ignore_ascii_case(entries[i - 1].username.as_str(), user) {
            return i;
        }
        i = i - 1;
    }
    0
}

fn news_lines(entries: &Vec<ChatHistoryEntry>, n: usize, user: &str) -> (r: Vec<String>)
    requires
        n <= entries@.len(),
    ensures
        ({
            let lines = chat_history::lines_of(entries@).take(n as int);
            text::views(r@) == all_spoken(lines.skip(news_start(lines, user@) as int))
        }),
{
    let ghost lines = chat_history::lines_of(entries@).take(n as int);
    let after: usize = find_after_last(entries, n, user);
    let start: usize = if after > 0 && n >= RECENT_USER_CONTEXT_MESSAGES && after - 1 < n
        - RECENT_USER_CONTEXT_MESSAGES {
        after
    } else {
        0
    };
    let mut out: Vec<String> = Vec::new();
    let mut i: usize = start;
    assert(all_spoken(lines.subrange(start as int, start as int)) =~= text::views(out@));
    while i < n
        invariant
            lines == chat_history::lines_of(entries@).take(n as int),
            start <= i <= n <= entries@.len(),
            text::views(out@) == all_spoken(lines.subrange(start as int, i as int)),
        decreases n - i,
    {
        let ghost before = text::views(out@);
        let s = speak(&entries[i]);
        assert(lines[i as int] == entries@[i as int]@);
        out.push(s);
        assert(text::views(out@) =~= before.push(spoken(lines[i as int])));
        assert(all_spoken(lines.subrange(start as int, i + 1)) =~= before.push(
            spoken(lines[i as int]),
        ));
        i = i + 1;
    }
    assert(lines.subrange(start as int, n as int) =~= lines.skip(start as int));
    out
}

fn tldr_lines(entries: &Vec<ChatHistoryEntry>, n: usize, now: &Timestamp) -> (r: Vec<String>)
    requires
        n <= entries@.len(),
    ensures
        text::views(r@) == all_spoken(
            of_last_day(chat_history::lines_of(entries@).take(n as int), now@),
        ),
{
    let ghost lines = chat_history::lines_of(entries@).take(n as int);
    let mut out: Vec<String> = Vec::new();
    let mut i: usize = 0;
    proof {
        assert(lines.take(0) =~= Seq::<chat_history::Line>::empty());
        assert(text::views(out@) =~= all_spoken(Seq::empty()));
    }
    while i < n
        invariant
            lines == chat_history::lines_of(entries@).take(n as int),
            i <= n <= entries@.len(),
            text::views(out@) == all_spoken(of_last_day(lines.take(i as int), now@)),
        decreases n - i,
    {
        let ghost before = text::views(out@);
        let ghost kept = of_last_day(lines.take(i as int), now@);
        proof {
            assert(lines.take(i + 1).drop_last() =~= lines.take(i as int));
            assert(lines[i as int] == entries@[i as int]@);
        }
        let age: i128 = now.since(&entries[i].timestamp).nanos;
        if age <= TLDR_WINDOW {
            out.push(speak(&entries[i]));
            assert(text::views(out@) =~= before.push(spoken(lines[i as int])));
            assert(all_spoken(kept.push(lines[i as int])) =~= before.push(
                spoken(lines[i as int]),
            ));
        }
        i = i + 1;
    }
    assert(lines.take(i as int) =~= lines);
    out
}

/// The lines that are summed up for a user who wrote the command in a message.
pub fn relevant_history(
    mode: NewsMode,
    history: &ChatHistoryBuffer,
    user: &str,
    current_message: &str,
    now: &Timestamp,
) -> (r: Option<Vec<String>>)
    ensures
        crate::json::opt_views(r) == relevant(
            mode,
            history@,
            user@,
            current_message@,
            now@,
        ),
{
    let entries = history.entries();
    let ghost all = history@;
    assert(all.len() == entries@.len());
    let mut n: usize = entries.len();
    if n > 0 {
        assert(all.last() == entries@[n - 1]@);
        if text::eq_ignore_ascii_case(entries[n - 1].username.as_str(), user) && text::same(
            entries[n - 1].text.as_str(),
            current_message,
        ) {
            n = n - 1;
        }
    }
    assert(all.take(n as int) =~= without_current(all, user@, current_message@));
    if n == 0 {
        return None;
    }
    match mode {
        NewsMode::News => Some(news_lines(entries, n, user)),
        NewsMode::Tldr => Some(tldr_lines(entries, n, now)),
    }
}

proof fn lemma_after_last_is_free(lines: Seq<chat_history::Line>, user: Seq<char>)
    ensures
        after_last_of(lines, user) <= lines.len(),
        forall|i: int|
            after_last_of(lines, user) <= i < lines.len() ==> !text::same_ignore_case(
                (#[trigger] lines[i]).username,
                user,
            ),
    decreases lines.len(),
{
    if lines.len() > 0 && !text::same_ignore_case(lines.last().username, user) {
        lemma_after_last_is_free(lines.drop_last(), user);
        assert forall|i: int|
            after_last_of(lines, user) <= i < lines.len() implies !text::same_ignore_case(
            (#[trigger] lines[i]).username,
            user,
        ) by {
            if i < lines.len() - 1 {
                assert(lines.drop_last()[i] == lines[i]);
            }
        }
    }
}

/// The news hold the newest messages, all of them or as many as are always taken; and
/// where a part of the history is left out, the user has written none of the rest.
pub proof fn law_news_reach_back(lines: Seq<chat_history::Line>, user: Seq<char>)
    ensures
        ({
            let start = news_start(lines, user) as int;
            &&& start <= lines.len()
            &&& start > 0 ==> lines.len() - start >= RECENT_USER_CONTEXT_MESSAGES
            &&& start > 0 ==> forall|i: int|
                start <= i < lines.len() ==> !text::same_ignore_case(
                    (#[trigger] lines[i]).username,
                    user,
                )
        }),
{
    lemma_after_last_is_free(lines, user);
}

// ---------------------------------------------------------------------------
// The question to the model and its answer
// ---------------------------------------------------------------------------

pub open spec fn question(mode: NewsMode, user: Seq<char>, lines: Seq<Seq<char>>) -> Seq<char> {
    (match mode {
        NewsMode::News => "Fasse diesen Twitch-Chat für "@ + user
            + " zusammen. Wenn eine ältere Nachricht von "@ + user
            + " als Kontextgrenze genutzt wurde, beginnt der Verlauf danach; neuere Nachrichten von "@
            + user + " sind Teil des Verlaufs."@,
        NewsMode::Tldr =>
        "Erstelle ein TLDR der verfügbaren Chat-Historie aus den letzten 24 Stunden."@,
    }) + "\n"@ + text::join(lines, "\n"@)
}

fn ask(mode: NewsMode, user: &str, lines: &Vec<String>) -> (r: String)
    ensures
        r@ == question(mode, user@, text::views(lines@)),
{
    let mut s = match mode {
        NewsMode::News => {
            let mut s = "Fasse diesen Twitch-Chat für ".to_owned();
            s.push_str(user);
            s.push_str(" zusammen. Wenn eine ältere Nachricht von ");
            s.push_str(user);
            s.push_str(
                " als Kontextgrenze genutzt wurde, beginnt der Verlauf danach; neuere Nachrichten von ",
            );
            s.push_str(user);
            s.push_str(" sind Teil des Verlaufs.");
            s
        },
        NewsMode::Tldr => {
            "Erstelle ein TLDR der verfügbaren Chat-Historie aus den letzten 24 Stunden.".to_owned()
        },
    };
    s.push_str("\n");
    s.push_str(text::joined(lines, "\n").as_str());
    s
}

/// What is done for a user.
#[derive(Debug, Clone)]
pub enum NewsStep {
    Reply(String),
    /// A model is asked for an answer to these messages.
    Ask(Vec<Message>),
}

#[verifier::ext_equal]
pub ghost enum Step {
    Reply(Seq<char>),
    Ask(Seq<llm::Said>),
}

impl NewsStep {
    pub open spec fn view(&self) -> Step {
        match *self {
            NewsStep::Reply(s) => Step::Reply(s@),
            NewsStep::Ask(m) => Step::Ask(llm::messages_of(m@)),
        }
    }
}

pub open spec fn history_lines(
    mode: NewsMode,
    history: Option<ChatHistoryBuffer>,
    ctx: CommandContext,
    now: Timestamp,
) -> Option<Seq<Seq<char>>> {
    match history {
        None => None,
        Some(h) => relevant(mode, h@, ctx.sender_login@, ctx.message_text@, now@),
    }
}

/// What is done for a user.
pub open spec fn step(
    mode: NewsMode,
    c: PerUserCooldown,
    history: Option<ChatHistoryBuffer>,
    ctx: CommandContext,
    now: Timestamp,
    clock: int,
) -> Step {
    match cooldown::left(c@, c.wait(), ctx.sender_login@, clock) {
        Some(left) => Step::Reply(cooldown::please_wait(left)),
        None => match history_lines(mode, history, ctx, now) {
            None => Step::Reply(mode.empty_text()),
            Some(lines) => if lines.len() == 0 {
                Step::Reply(mode.nothing_new_text())
            } else {
                Step::Ask(
                    seq![
                        (llm::Said { role: "system"@, content: mode.prompt() }),
                        (llm::Said {
                            role: "user"@,
                            content: question(mode, ctx.sender_login@, lines),
                        }),
                    ],
                )
            },
        },
    }
}

/// Decides what is done for a user. The cooldown starts where a model is asked.
pub fn execute(
    mode: NewsMode,
    cooldowns: &mut PerUserCooldown,
    history: &Option<ChatHistoryBuffer>,
    ctx: &CommandContext,
    now: &Timestamp,
    clock: Instant,
) -> (r: NewsStep)
    requires
        old(cooldowns).wf(),
    ensures
        final(cooldowns).wf(),
        final(cooldowns).wait() == old(cooldowns).wait(),
        r@ == step(mode, *old(cooldowns), *history, *ctx, *now, clock@),
        final(cooldowns)@ == if r@ is Ask {
            old(cooldowns)@.insert(ctx.sender_login@, clock@)
        } else {
            old(cooldowns)@
        },
{
    let user = ctx.sender_login.as_str();
    if let Some(left) = cooldowns.check(user, clock) {
        return NewsStep::Reply(waiting_message(left));
    }
    let found = match history {
        None => None,
        Some(h) => relevant_history(mode, h, user, ctx.message_text.as_str(), now),
    };
    let lines = match found {
        None => {
            return NewsStep::Reply(mode.empty_message().to_owned());
        },
        Some(lines) => lines,
    };
    assert(text::views(lines@).len() == lines@.len());
    if lines.len() == 0 {
        return NewsStep::Reply(mode.nothing_new_message().to_owned());
    }
    cooldowns.record(user, clock);
    let mut messages: Vec<Message> = Vec::new();
    messages.push(Message::system(mode.system_prompt().to_owned()));
    messages.push(Message::user(ask(mode, user, &lines)));
    proof {
        assert(llm::messages_of(messages@) =~= seq![
            (llm::Said { role: "system"@, content: mode.prompt() }),
            (llm::Said {
                role: "user"@,
                content: question(mode, ctx.sender_login@, text::views(lines@)),
            }),
        ]);
    }
    NewsStep::Ask(messages)
}

/// An answer of the model with the prefix of the news, in its proper case, and cut.
pub open spec fn news_text(answer: Seq<char>, max: nat) -> Seq<char> {
    let s = text::trim(answer);
    let n = NEWS_PREFIX@.len() as int;
    util::truncated(
        if s.len() >= n && text::same_ignore_case(s.take(n), NEWS_PREFIX@) {
            NEWS_PREFIX@ + s.skip(n)
        } else {
            NEWS_PREFIX@ + " "@ + s
        },
        max,
    )
}

pub fn format_news_response(answer: &str, max_chars: usize) -> (r: String)
    ensures
        r@ == news_text(answer@, max_chars as nat),
{
    let trimmed = text::trimmed(answer);
    let v = text::chars_of(trimmed.as_str());
    let n: usize = text::char_count(NEWS_PREFIX);
    let has_prefix = if v.len() >= n {
        let head = text::string_of(&v, 0, n);
        assert(v@.subrange(0, n as int) =~= v@.take(n as int));
        text::eq_ignore_ascii_case(head.as_str(), NEWS_PREFIX)
    } else {
        false
    };
    let mut s = NEWS_PREFIX.to_owned();
    if has_prefix {
        let rest = text::string_of(&v, n, v.len());
        assert(v@.subrange(n as int, v@.len() as int) =~= v@.skip(n as int));
        s.push_str(rest.as_str());
    } else {
        s.push_str(" ");
        s.push_str(trimmed.as_str());
    }
    truncate_response(s.as_str(), max_chars)
}

/// What is sent to the user, and whether it is whispered where that is possible.
#[derive(Debug, Clone)]
pub struct NewsReply {
    pub text: String,
    pub whisper: bool,
}

/// What is sent to the user once the model has answered, or has not.
pub open spec fn sent(result: Completion) -> Seq<char> {
    match result {
        Completion::Text(answer) => news_text(answer@, WHISPER_MAX_CHARS as nat),
        Completion::Failed => util::truncated(FAILURE_MSG@, MAX_RESPONSE_LENGTH as nat),
        Completion::TimedOut => util::truncated(TIMEOUT_MSG@, MAX_RESPONSE_LENGTH as nat),
    }
}

/// What is sent to the user once the model has answered, or has not.
pub fn finish(result: &Completion) -> (r: NewsReply)
    ensures
        r.whisper == (*result is Text),
        r.text@ == match *result {
            Completion::Text(answer) => news_text(answer@, WHISPER_MAX_CHARS as nat),
            Completion::Failed => util::truncated(FAILURE_MSG@, MAX_RESPONSE_LENGTH as nat),
            Completion::TimedOut => util::truncated(TIMEOUT_MSG@, MAX_RESPONSE_LENGTH as nat),
        },
        r.text@ == sent(*result),
{
    match result {
        Completion::Text(answer) => NewsReply {
            text: format_news_response(answer.as_str(), WHISPER_MAX_CHARS),
            whisper: true,
        },
        Completion::Failed => NewsReply {
            text: truncate_response(FAILURE_MSG, MAX_RESPONSE_LENGTH),
            whisper: false,
        },
        Completion::TimedOut => NewsReply {
            text: truncate_response(TIMEOUT_MSG, MAX_RESPONSE_LENGTH),
            whisper: false,
        },
    }
}

/// What is sent to the chat where an answer cannot be whispered.
pub fn chat_fallback(response: &str) -> (r: String)
    ensures
        r@ == util::truncated(response@, MAX_RESPONSE_LENGTH as nat),
{
    truncate_response(response, MAX_RESPONSE_LENGTH)
}


/// The message with the command itself is left out, and no other one.
pub proof fn law_command_is_left_out(
    lines: Seq<chat_history::Line>,
    line: chat_history::Line,
    user: Seq<char>,
    message: Seq<char>,
)
    ensures
        text::lower(line.username) == text::lower(user) && line.text == message ==> without_current(
            lines.push(line),
            user,
            message,
        ) == lines,
        text::lower(line.username) != text::lower(user) || line.text != message ==> without_current(
            lines.push(line),
            user,
            message,
        ) == lines.push(line),
{
    assert(lines.push(line).drop_last() =~= lines);
}

/// News go on behind the last message of the user, where there are at least twenty messages
/// behind it; otherwise they are the whole history.
pub proof fn law_news_begin_behind_the_user(lines: Seq<chat_history::Line>, user: Seq<char>, k: int)
    requires
        0 <= k < lines.len(),
        text::lower(lines[k].username) == text::lower(user),
        forall|i: int|
            k < i < lines.len() ==> text::lower((#[trigger] lines[i]).username) != text::lower(
                user,
            ),
    ensures
        lines.len() - k > 20 ==> news_start(lines, user) == k + 1,
        lines.len() - k <= 20 ==> news_start(lines, user) == 0,
{
    lemma_after_last_is(lines, user, k);
}

proof fn lemma_after_last_is(lines: Seq<chat_history::Line>, user: Seq<char>, k: int)
    requires
        0 <= k < lines.len(),
        text::lower(lines[k].username) == text::lower(user),
        forall|i: int|
            k < i < lines.len() ==> text::lower((#[trigger] lines[i]).username) != text::lower(
                user,
            ),
    ensures
        after_last_of(lines, user) == k + 1,
    decreases lines.len(),
{
    if k < lines.len() - 1 {
        assert(text::lower(lines[lines.len() - 1].username) != text::lower(user));
        let rest = lines.drop_last();
        assert forall|i: int| k < i < rest.len() implies text::lower((#[trigger] rest[i]).username)
            != text::lower(user) by {
            assert(rest[i] == lines[i]);
        }
        lemma_after_last_is(rest, user, k);
    }
}

/// Where the user wrote nothing, the news are the whole history.
pub proof fn law_news_of_strangers_are_everything(
    lines: Seq<chat_history::Line>,
    user: Seq<char>,
)
    requires
        forall|i: int|
            0 <= i < lines.len() ==> text::lower((#[trigger] lines[i]).username) != text::lower(
                user,
            ),
    ensures
        news_start(lines, user) == 0,
    decreases lines.len(),
{
    if lines.len() > 0 {
        assert(text::lower(lines[lines.len() - 1].username) != text::lower(user));
        let rest = lines.drop_last();
        assert forall|i: int| 0 <= i < rest.len() implies text::lower((#[trigger] rest[i]).username)
            != text::lower(user) by {
            assert(rest[i] == lines[i]);
        }
        law_no_message_no_end(rest, user);
    }
}

/// A user who wrote nothing has no last message.
pub proof fn law_no_message_no_end(lines: Seq<chat_history::Line>, user: Seq<char>)
    requires
        forall|i: int|
            0 <= i < lines.len() ==> text::lower((#[trigger] lines[i]).username) != text::lower(
                user,
            ),
    ensures
        after_last_of(lines, user) == 0,
    decreases lines.len(),
{
    if lines.len() > 0 {
        assert(text::lower(lines[lines.len() - 1].username) != text::lower(user));
        let rest = lines.drop_last();
        assert forall|i: int| 0 <= i < rest.len() implies text::lower((#[trigger] rest[i]).username)
            != text::lower(user) by {
            assert(rest[i] == lines[i]);
        }
        law_no_message_no_end(rest, user);
    }
}

/// The summary of a day takes just the messages that are at most 24 hours old, in their
/// order.
pub proof fn law_tldr_takes_a_day(
    lines: Seq<chat_history::Line>,
    line: chat_history::Line,
    now: int,
)
    ensures
        of_last_day(lines.push(line), now) == if now - line.timestamp@ <= 86_400_000_000_000 {
            of_last_day(lines, now).push(line)
        } else {
            of_last_day(lines, now)
        },
        of_last_day(Seq::empty(), now) == Seq::<chat_history::Line>::empty(),
{
    assert(lines.push(line).drop_last() =~= lines);
}

/// What is summed up are the messages of the history but the command itself, each with its
/// author: for news those from where they begin, for the day those of the day.
pub proof fn law_right_messages_are_summed_up(
    history: Seq<chat_history::Line>,
    user: Seq<char>,
    message: Seq<char>,
    now: int,
)
    ensures
        ({
            let lines = without_current(history, user, message);
            &&& lines.len() == 0 ==> relevant(NewsMode::News, history, user, message, now) is None
                && relevant(NewsMode::Tldr, history, user, message, now) is None
            &&& lines.len() > 0 ==> {
                let start = news_start(lines, user) as int;
                let news = relevant(NewsMode::News, history, user, message, now);
                let day = relevant(NewsMode::Tldr, history, user, message, now);
                &&& news is Some && day is Some
                &&& start <= lines.len() ==> news->0.len() == lines.len() - start && forall|i: int|
                    0 <= i < news->0.len() ==> #[trigger] news->0[i] == lines[start + i].username
                        + ": "@ + lines[start + i].text
                &&& day->0.len() == of_last_day(lines, now).len()
                &&& forall|i: int|
                    0 <= i < day->0.len() ==> #[trigger] day->0[i] == of_last_day(
                        lines,
                        now,
                    )[i].username + ": "@ + of_last_day(lines, now)[i].text
            }
        }),
{
}

/// The model is asked to sum up each of the messages, for the user by name where it is about
/// news, under the prompt of the command.
pub proof fn law_model_gets_the_messages(
    mode: NewsMode,
    c: PerUserCooldown,
    history: Option<ChatHistoryBuffer>,
    ctx: CommandContext,
    now: Timestamp,
    clock: int,
    lines: Seq<Seq<char>>,
    i: int,
)
    requires
        history_lines(mode, history, ctx, now) == Some(lines),
        0 <= i < lines.len(),
        cooldown::left(c@, c.wait(), ctx.sender_login@, clock) is None,
    ensures
        step(mode, c, history, ctx, now, clock) matches Step::Ask(m) && m.len() == 2 && m[0].role
            == "system"@ && m[1].role == "user"@ && text::has(m[1].content, lines[i]) && (mode
            == NewsMode::News ==> m[0].content == NEWS_SYSTEM_PROMPT@ && text::has(
            m[1].content,
            ctx.sender_login@,
        )) && (mode == NewsMode::Tldr ==> m[0].content == TLDR_SYSTEM_PROMPT@),
{
    broadcast use text::group_parts;

    text::law_joined_holds_each(lines, "\n"@, i);
}

/// Without messages the model is not asked, nor while the user has to wait.
pub proof fn law_nothing_is_not_summed_up(
    mode: NewsMode,
    c: PerUserCooldown,
    history: Option<ChatHistoryBuffer>,
    ctx: CommandContext,
    now: Timestamp,
    clock: int,
)
    ensures
        cooldown::left(c@, c.wait(), ctx.sender_login@, clock) is Some ==> step(
            mode,
            c,
            history,
            ctx,
            now,
            clock,
        ) is Reply,
        history is None ==> step(mode, c, history, ctx, now, clock) is Reply,
        history_lines(mode, history, ctx, now) matches Some(l) ==> l.len() == 0 ==> step(
            mode,
            c,
            history,
            ctx,
            now,
            clock,
        ) is Reply,
{
}

/// An answer begins with the mark of the news just once, and is cut to what is allowed.
pub proof fn law_news_are_marked(s: String, rest: Seq<char>, max: nat)
    requires
        text::trim(s@).len() > 0,
    ensures
        news_text(s@, max).len() <= max,
        sent(Completion::Text(s)) == news_text(s@, 10_000),
        text::trim(s@) == "ICYMI:"@ + rest ==> news_text(s@, max) == util::truncated(
            "ICYMI:"@ + rest,
            max,
        ),
        text::trim(s@).len() < 6 ==> news_text(s@, max) == util::truncated(
            "ICYMI:"@ + " "@ + text::trim(s@),
            max,
        ),
{
    reveal_strlit("ICYMI:");
    let t = text::trim(s@);
    let whole = if t.len() >= 6 && text::same_ignore_case(t.take(6), NEWS_PREFIX@) {
        NEWS_PREFIX@ + t.skip(6)
    } else {
        NEWS_PREFIX@ + " "@ + t
    };
    util::law_truncated_is_short(whole, max);
    if t == "ICYMI:"@ + rest {
        assert(t.take(6) =~= "ICYMI:"@);
        assert(t.skip(6) =~= rest);
    }
}

} // verus!

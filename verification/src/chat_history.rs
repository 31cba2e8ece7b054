//! The last messages of the chat, of which a model can be shown a page.
use vstd::prelude::*;
use crate::berlin;
use crate::json;
use crate::text;
use crate::time::Timestamp;

verus! {

/// How many messages a query gives where it asks for no number.
pub const DEFAULT_QUERY_LIMIT: usize = 50;

/// How many messages a query gives at most.
pub const MAX_TOOL_RESULT_MESSAGES: usize = 200;

/// Who wrote a message.
#[derive(Debug, Clone, Copy, PartialEq, Eq, Structural)]
pub enum ChatHistorySource {
    User,
    Bot,
}

/// A message of the chat. Later messages have higher numbers.
#[derive(Debug, Clone)]
pub struct ChatHistoryEntry {
    pub seq: u64,
    pub source: ChatHistorySource,
    pub username: String,
    pub text: String,
    pub timestamp: Timestamp,
}

/// The contents of a `ChatHistoryEntry`.
#[verifier::ext_equal]
pub ghost struct Line {
    pub seq: u64,
    pub source: ChatHistorySource,
    pub username: Seq<char>,
    pub text: Seq<char>,
    pub timestamp: Timestamp,
}

impl ChatHistoryEntry {
    pub open spec fn view(&self) -> Line {
        Line {
            seq: self.seq,
            source: self.source,
            username: self.username@,
            text: self.text@,
            timestamp: self.timestamp,
        }
    }

    /// A copy of the entry.
    pub fn copy(&self) -> (r: ChatHistoryEntry)
        ensures
            r@ == self@,
    {
        ChatHistoryEntry {
            seq: self.seq,
            source: self.source,
            username: self.username.clone(),
            text: self.text.clone(),
            timestamp: self.timestamp,
        }
    }
}

pub open spec fn lines_of(entries: Seq<ChatHistoryEntry>) -> Seq<Line> {
    Seq::new(entries.len(), |i: int| entries[i]@)
}

/// What is looked for in the history.
#[derive(Debug, Clone)]
pub struct ChatHistoryQuery {
    pub limit: Option<usize>,
    pub user: Option<String>,
    pub contains: Option<String>,
    pub before_seq: Option<u64>,
}

/// Some messages, whether there are older ones, and where those end.
#[derive(Debug, Clone)]
pub struct ChatHistoryPage {
    pub messages: Vec<ChatHistoryEntry>,
    pub has_more: bool,
    pub next_before_seq: Option<u64>,
}

/// The last messages, up to a number, oldest first.
#[derive(Debug, Clone)]
pub struct ChatHistoryBuffer {
    capacity: usize,
    next_seq: u64,
    entries: Vec<ChatHistoryEntry>,
}

/// A history with one more message, and without the oldest where there are too many.
pub open spec fn appended(lines: Seq<Line>, capacity: nat, line: Line) -> Seq<Line> {
    let all = lines.push(line);
    if all.len() > capacity {
        all.drop_first()
    } else {
        all
    }
}

/// A message of a user in a log of the chat.
#[derive(Debug, Clone)]
pub struct LoggedMessage {
    pub username: String,
    pub text: String,
    pub timestamp: Timestamp,
}

/// The messages of a log, numbered from zero.
pub open spec fn logged(log: Seq<LoggedMessage>) -> Seq<Line> {
    Seq::new(
        log.len(),
        |i: int|
            Line {
                seq: i as u64,
                source: ChatHistorySource::User,
                username: log[i].username@,
                text: log[i].text@,
                timestamp: log[i].timestamp,
            },
    )
}

/// The last lines, up to a number.
pub open spec fn last_of(lines: Seq<Line>, capacity: nat) -> Seq<Line> {
    if lines.len() > capacity {
        lines.skip(lines.len() - capacity)
    } else {
        lines
    }
}

/// Whether a log has fewer messages than a part of a history, given in millionths.
pub open spec fn is_short(found: int, capacity: int, millionths: int) -> bool {
    found * 1_000_000 < capacity * millionths
}

/// Whether the log of the day before is read as well: today's has fewer messages than a
/// part of the history, given in millionths.
pub fn wants_day_before(found: usize, capacity: usize, threshold: i64) -> (r: bool)
    requires
        0 <= threshold <= 1_000_000,
    ensures
        r == (found * 1_000_000 < capacity * threshold),
        r == is_short(found as int, capacity as int, threshold as int),
{
    assert(0 <= capacity * threshold <= usize::MAX * 1_000_000) by (nonlinear_arith)
        requires
            0 <= capacity <= usize::MAX,
            0 <= threshold <= 1_000_000,
    ;
    (found as u128) * 1_000_000 < (capacity as u128) * (threshold as u128)
}

impl ChatHistoryBuffer {
    /// The number of the next message.
    pub closed spec fn next(&self) -> u64 {
        self.next_seq
    }

    pub closed spec fn spec_capacity(&self) -> nat {
        self.capacity as nat
    }

    pub closed spec fn view(&self) -> Seq<Line> {
        lines_of(self.entries@)
    }

    /// No more messages than there is room for, in the order of their numbers.
    pub open spec fn wf(&self) -> bool {
        &&& self@.len() <= self.spec_capacity()
        &&& forall|i: int, j: int| 0 <= i < j < self@.len() ==> self@[i].seq < self@[j].seq
        &&& forall|i: int| 0 <= i < self@.len() ==> self@[i].seq < self.next()
    }

    /// An empty history with room for some messages.
    pub fn new(capacity: usize) -> (r: ChatHistoryBuffer)
        ensures
            r.wf(),
            r@ == Seq::<Line>::empty(),
            r.spec_capacity() == capacity,
            r.next() == 0,
    {
        let r = ChatHistoryBuffer { capacity, next_seq: 0, entries: Vec::new() };
        assert(r@ =~= Seq::<Line>::empty());
        r
    }

    fn push(
        &mut self,
        source: ChatHistorySource,
        username: String,
        message: String,
        timestamp: Timestamp,
    )
        requires
            old(self).wf(),
            old(self).next() < u64::MAX,
        ensures
            final(self).wf(),
            final(self).spec_capacity() == old(self).spec_capacity(),
            final(self).next() == old(self).next() + 1,
            final(self)@ == appended(
                old(self)@,
                old(self).spec_capacity(),
                Line {
                    seq: old(self).next(),
                    source,
                    username: username@,
                    text: message@,
                    timestamp,
                },
            ),
    {
        let entry = ChatHistoryEntry {
            seq: self.next_seq,
            source,
            username,
            text: message,
            timestamp,
        };
        let ghost line = entry@;
        self.next_seq = self.next_seq + 1;
        self.entries.push(entry);
        assert(self@ =~= old(self)@.push(line));
        if self.entries.len() > self.capacity {
            let _oldest = self.entries.remove(0);
            assert(self@ =~= old(self)@.push(line).drop_first());
        }
    }

    /// Adds a message of a user.
    pub fn push_user(&mut self, username: String, message: String, now: Timestamp)
        requires
            old(self).wf(),
            old(self).next() < u64::MAX,
        ensures
            final(self).wf(),
            final(self).spec_capacity() == old(self).spec_capacity(),
            final(self).next() == old(self).next() + 1,
            final(self)@ == appended(
                old(self)@,
                old(self).spec_capacity(),
                Line {
                    seq: old(self).next(),
                    source: ChatHistorySource::User,
                    username: username@,
                    text: message@,
                    timestamp: now,
                },
            ),
    {
        self.push(ChatHistorySource::User, username, message, now)
    }

    /// Adds a message of the bot.
    pub fn push_bot(&mut self, username: String, message: String, now: Timestamp)
        requires
            old(self).wf(),
            old(self).next() < u64::MAX,
        ensures
            final(self).wf(),
            final(self).spec_capacity() == old(self).spec_capacity(),
            final(self).next() == old(self).next() + 1,
            final(self)@ == appended(
                old(self)@,
                old(self).spec_capacity(),
                Line {
                    seq: old(self).next(),
                    source: ChatHistorySource::Bot,
                    username: username@,
                    text: message@,
                    timestamp: now,
                },
            ),
    {
        self.push(ChatHistorySource::Bot, username, message, now)
    }

    /// A history that starts with messages from a log, oldest first; the newest stay where
    /// there are too many.
    pub fn from_prefill(capacity: usize, log: Vec<LoggedMessage>) -> (r: ChatHistoryBuffer)
        ensures
            r.wf(),
            r.spec_capacity() == capacity,
            r.next() == log@.len(),
            r@ == last_of(logged(log@), capacity as nat),
    {
        let mut r = ChatHistoryBuffer::new(capacity);
        let ghost all = logged(log@);
        let mut i: usize = 0;
        proof {
            assert(last_of(all.take(0), capacity as nat) =~= Seq::<Line>::empty());
        }
        while i < log.len()
            invariant
                i <= log@.len(),
                all == logged(log@),
                r.wf(),
                r.spec_capacity() == capacity,
                r.next() == i,
                r@ == last_of(all.take(i as int), capacity as nat),
            decreases log@.len() - i,
        {
            let m = &log[i];
            let ghost before = r@;
            r.push_user(m.username.clone(), m.text.clone(), m.timestamp);
            proof {
                let line = all[i as int];
                assert(r@ == appended(before, capacity as nat, line));
                assert(all.take(i + 1) =~= all.take(i as int).push(line));
                assert(r@ =~= last_of(all.take(i + 1), capacity as nat));
            }
            i = i + 1;
        }
        assert(all.take(i as int) =~= all);
        r
    }

    /// Whether another message can still be numbered.
    pub fn has_room(&self) -> (r: bool)
        ensures
            r == (self.next() < u64::MAX),
    {
        self.next_seq < u64::MAX
    }

    pub fn is_empty(&self) -> (r: bool)
        ensures
            r == (self@.len() == 0),
    {
        self.entries.len() == 0
    }

    /// The messages, oldest first.
    pub fn entries(&self) -> (r: &Vec<ChatHistoryEntry>)
        ensures
            lines_of(r@) == self@,
    {
        &self.entries
    }
}

// ---------------------------------------------------------------------------
// Queries
// ---------------------------------------------------------------------------

/// Whether a message is one that is looked for.
pub open spec fn is_wanted(line: Line, q: ChatHistoryQuery) -> bool {
    &&& q.before_seq is Some ==> line.seq < q.before_seq->0
    &&& q.user is Some ==> text::same_ignore_case(line.username, q.user->0@)
    &&& q.contains is Some ==> text::has(
        text::unicode_lower(line.text),
        text::unicode_lower(q.contains->0@),
    )
}

/// The messages, among some, that are looked for.
pub open spec fn wanted(lines: Seq<Line>, q: ChatHistoryQuery) -> Seq<Line>
    decreases lines.len(),
{
    if lines.len() == 0 {
        Seq::empty()
    } else {
        let rest = wanted(lines.drop_last(), q);
        if is_wanted(lines.last(), q) {
            rest.push(lines.last())
        } else {
            rest
        }
    }
}

/// How many messages a query gives at most: from 1 to 200, and 50 where nothing is said.
pub open spec fn limit_of(q: ChatHistoryQuery) -> nat {
    match q.limit {
        None => DEFAULT_QUERY_LIMIT as nat,
        Some(n) => if n < 1 {
            1
        } else if n > MAX_TOOL_RESULT_MESSAGES {
            MAX_TOOL_RESULT_MESSAGES as nat
        } else {
            n as nat
        },
    }
}

/// The last of some messages, up to a number.
pub open spec fn newest(lines: Seq<Line>, limit: nat) -> Seq<Line> {
    if lines.len() > limit {
        lines.skip(lines.len() - limit)
    } else {
        lines
    }
}

impl ChatHistoryBuffer {
    /// The newest messages that are looked for, oldest first.
    pub fn query(&self, q: &ChatHistoryQuery) -> (r: ChatHistoryPage)
        ensures
            lines_of(r.messages@) == newest(wanted(self@, *q), limit_of(*q)),
            r.has_more == (wanted(self@, *q).len() > limit_of(*q)),
            r.next_before_seq == if r.has_more {
                Some(r.messages@[0].seq)
            } else {
                None
            },
            r.has_more ==> r.messages@.len() > 0,
    {
        let limit: usize = match q.limit {
            None => DEFAULT_QUERY_LIMIT,
            Some(n) => if n < 1 {
                1
            } else if n > MAX_TOOL_RESULT_MESSAGES {
                MAX_TOOL_RESULT_MESSAGES
            } else {
                n
            },
        };
        let found = self.find(q);
        let ghost all = lines_of(found@);
        let has_more = found.len() > limit;
        let from: usize = if has_more {
            found.len() - limit
        } else {
            0
        };
        let mut messages: Vec<ChatHistoryEntry> = Vec::new();
        let mut i: usize = from;
        while i < found.len()
            invariant
                from <= i <= found@.len(),
                all == lines_of(found@),
                lines_of(messages@) == all.subrange(from as int, i as int),
            decreases found@.len() - i,
        {
            let ghost before = lines_of(messages@);
            messages.push(found[i].copy());
            assert(lines_of(messages@) =~= before.push(all[i as int]));
            assert(all.subrange(from as int, i + 1) =~= before.push(all[i as int]));
            i = i + 1;
        }
        assert(lines_of(messages@) =~= newest(all, limit as nat));
        assert(lines_of(messages@).len() == messages@.len());
        let next_before_seq = if has_more {
            Some(messages[0].seq)
        } else {
            None
        };
        ChatHistoryPage { messages, has_more, next_before_seq }
    }

    fn find(&self, q: &ChatHistoryQuery) -> (r: Vec<ChatHistoryEntry>)
        ensures
            lines_of(r@) == wanted(self@, *q),
    {
        let ghost all = self@;
        let mut out: Vec<ChatHistoryEntry> = Vec::new();
        let mut i: usize = 0;
        proof {
            assert(all.take(0) =~= Seq::<Line>::empty());
            assert(lines_of(out@) =~= Seq::<Line>::empty());
        }
        while i < self.entries.len()
            invariant
                all == self@,
                i <= self.entries@.len(),
                lines_of(out@) == wanted(all.take(i as int), *q),
            decreases self.entries@.len() - i,
        {
            let ghost before = lines_of(out@);
            assert(all.take(i + 1).drop_last() =~= all.take(i as int));
            if is_match(&self.entries[i], q) {
                out.push(self.entries[i].copy());
                assert(lines_of(out@) =~= before.push(all[i as int]));
            }
            i = i + 1;
        }
        assert(all.take(i as int) =~= all);
        out
    }
}

fn is_match(entry: &ChatHistoryEntry, q: &ChatHistoryQuery) -> (r: bool)
    ensures
        r == is_wanted(entry@, *q),
{
    if let Some(before) = q.before_seq {
        if entry.seq >= before {
            return false;
        }
    }
    if let Some(user) = &q.user {
        if !text::eq_ignore_ascii_case(entry.username.as_str(), user.as_str()) {
            return false;
        }
    }
    if let Some(part) = &q.contains {
        let message = text::to_lowercase(entry.text.as_str());
        let part = text::to_lowercase(part.as_str());
        if !text::contains(message.as_str(), part.as_str()) {
            return false;
        }
    }
    true
}

/// A page never holds more than the most that is allowed.
pub proof fn law_pages_are_bounded(lines: Seq<Line>, q: ChatHistoryQuery)
    ensures
        newest(wanted(lines, q), limit_of(q)).len() <= MAX_TOOL_RESULT_MESSAGES,
{
}

// ---------------------------------------------------------------------------
// Texts
// ---------------------------------------------------------------------------

/// A message as a line with its time in Berlin.
pub open spec fn stamped(line: Line) -> Seq<char> {
    "["@ + berlin::berlin_formatted(line.timestamp.spec_secs(), berlin::CLOCK_FORMAT@) + "] "@
        + line.username + ": "@ + line.text
}

pub open spec fn transcript(lines: Seq<Line>) -> Seq<char> {
    text::join(Seq::new(lines.len(), |i: int| stamped(lines[i])), "\n"@)
}

/// The messages as lines with their times in Berlin.
pub fn format_transcript(history: &ChatHistoryBuffer) -> (r: String)
    ensures
        r@ == transcript(history@),
{
    let entries = history.entries();
    let ghost all = history@;
    let mut lines: Vec<String> = Vec::new();
    let mut i: usize = 0;
    while i < entries.len()
        invariant
            all == lines_of(entries@),
            i <= entries@.len(),
            lines@.len() == i,
            forall|j: int| 0 <= j < i ==> lines@[j]@ == stamped(#[trigger] all[j]),
        decreases entries@.len() - i,
    {
        let mut s = "[".to_owned();
        let clock = berlin::format_clock(&entries[i].timestamp);
        s.push_str(clock.as_str());
        s.push_str("] ");
        s.push_str(entries[i].username.as_str());
        s.push_str(": ");
        s.push_str(entries[i].text.as_str());
        assert(all[i as int] == entries@[i as int]@);
        lines.push(s);
        i = i + 1;
    }
    assert(text::views(lines@) =~= Seq::new(all.len(), |j: int| stamped(all[j])));
    text::joined(&lines, "\n")
}

pub open spec fn source_text(source: ChatHistorySource) -> Seq<char> {
    match source {
        ChatHistorySource::User => "\"user\""@,
        ChatHistorySource::Bot => "\"bot\""@,
    }
}

/// A message as a JSON object.
pub open spec fn line_json(line: Line) -> Seq<char> {
    "{\"seq\":"@ + text::decimal(line.seq as nat) + ",\"source\":"@ + source_text(line.source)
        + ",\"text\":"@ + json::json_quoted(line.text) + ",\"timestamp\":"@ + json::json_quoted(
        line.timestamp.text(),
    ) + ",\"username\":"@ + json::json_quoted(line.username) + "}"@
}

fn entry_json(e: &ChatHistoryEntry) -> (r: String)
    ensures
        r@ == line_json(e@),
{
    let mut s = "{\"seq\":".to_owned();
    s.push_str(text::from_u64(e.seq).as_str());
    s.push_str(",\"source\":");
    s.push_str(
        match e.source {
            ChatHistorySource::User => "\"user\"",
            ChatHistorySource::Bot => "\"bot\"",
        },
    );
    s.push_str(",\"text\":");
    s.push_str(json::quote(e.text.as_str()).as_str());
    s.push_str(",\"timestamp\":");
    s.push_str(json::quote(e.timestamp.to_text().as_str()).as_str());
    s.push_str(",\"username\":");
    s.push_str(json::quote(e.username.as_str()).as_str());
    s.push_str("}");
    s
}

pub open spec fn opt_json(n: Option<u64>) -> Seq<char> {
    match n {
        Some(n) => text::decimal(n as nat),
        None => "null"@,
    }
}

pub open spec fn bool_json(b: bool) -> Seq<char> {
    if b {
        "true"@
    } else {
        "false"@
    }
}

/// A page as a JSON object.
pub open spec fn page_json(lines: Seq<Line>, has_more: bool, next: Option<u64>) -> Seq<char> {
    "{\"has_more\":"@ + bool_json(has_more) + ",\"max_limit\":"@ + text::decimal(
        MAX_TOOL_RESULT_MESSAGES as nat,
    ) + ",\"messages\":["@ + text::join(
        Seq::new(lines.len(), |i: int| line_json(lines[i])),
        ","@,
    ) + "],\"messages_are_untrusted\":true,\"next_before_seq\":"@ + opt_json(next)
        + ",\"returned\":"@ + text::decimal(lines.len()) + "}"@
}

impl ChatHistoryPage {
    pub open spec fn text(&self) -> Seq<char> {
        page_json(lines_of(self.messages@), self.has_more, self.next_before_seq)
    }

    /// The page as a JSON object, with its messages marked as untrusted.
    pub fn to_json(&self) -> (r: String)
        ensures
            r@ == self.text(),
    {
        let ghost all = lines_of(self.messages@);
        let mut parts: Vec<String> = Vec::new();
        let mut i: usize = 0;
        while i < self.messages.len()
            invariant
                all == lines_of(self.messages@),
                i <= self.messages@.len(),
                parts@.len() == i,
                forall|j: int| 0 <= j < i ==> parts@[j]@ == line_json(#[trigger] all[j]),
            decreases self.messages@.len() - i,
        {
            assert(all[i as int] == self.messages@[i as int]@);
            parts.push(entry_json(&self.messages[i]));
            i = i + 1;
        }
        assert(text::views(parts@) =~= Seq::new(all.len(), |j: int| line_json(all[j])));
        let mut s = "{\"has_more\":".to_owned();
        s.push_str(
            if self.has_more {
                "true"
            } else {
                "false"
            },
        );
        s.push_str(",\"max_limit\":");
        s.push_str(text::from_usize(MAX_TOOL_RESULT_MESSAGES).as_str());
        s.push_str(",\"messages\":[");
        s.push_str(text::joined(&parts, ",").as_str());
        s.push_str("],\"messages_are_untrusted\":true,\"next_before_seq\":");
        match self.next_before_seq {
            Some(n) => {
                s.push_str(text::from_u64(n).as_str());
            },
            None => {
                s.push_str("null");
            },
        }
        s.push_str(",\"returned\":");
        s.push_str(text::from_usize(self.messages.len()).as_str());
        s.push_str("}");
        s
    }
}


/// A message that is added is the last one. The others stay in their order; the oldest goes
/// where there is no room.
pub proof fn law_new_messages_come_last(lines: Seq<Line>, capacity: nat, line: Line)
    requires
        capacity > 0,
        lines.len() <= capacity,
    ensures
        appended(lines, capacity, line).last() == line,
        appended(lines, capacity, line).len() <= capacity,
        lines.len() < capacity ==> appended(lines, capacity, line) == lines.push(line),
        lines.len() == capacity ==> appended(lines, capacity, line) == lines.skip(1).push(line),
{
    if lines.len() > 0 {
        assert(lines.push(line).drop_first() =~= lines.skip(1).push(line));
    }
}

/// A history that is loaded from a log holds its last messages, in their order, with their
/// authors, texts and times.
pub proof fn law_log_is_loaded(log: Seq<LoggedMessage>, capacity: nat)
    requires
        log.len() <= u64::MAX,
    ensures
        ({
            let lines = last_of(logged(log), capacity);
            let skipped = log.len() - lines.len();
            &&& lines.len() == if log.len() < capacity {
                log.len()
            } else {
                capacity
            }
            &&& forall|i: int|
                0 <= i < lines.len() ==> {
                    &&& (#[trigger] lines[i]).username == log[skipped + i].username@
                    &&& lines[i].text == log[skipped + i].text@
                    &&& lines[i].timestamp == log[skipped + i].timestamp
                    &&& lines[i].seq == skipped + i
                    &&& lines[i].source == ChatHistorySource::User
                }
        }),
{
}

/// The log of the day before is read where today's has less than a part of the history: never
/// for a part of nothing, and for the whole of it where any message is missing.
pub proof fn law_short_logs_are_filled_up(found: int, capacity: int)
    requires
        0 <= found,
        0 <= capacity,
    ensures
        !is_short(found, capacity, 0),
        is_short(found, capacity, 1_000_000) <==> found < capacity,
        is_short(found, capacity, 500_000) <==> 2 * found < capacity,
{
}

/// A query looks for messages before a number, of a user whatever the case, and with a text
/// in them whatever the case, as far as it names these.
pub proof fn law_queries_filter(line: Line, q: ChatHistoryQuery)
    ensures
        is_wanted(line, q) <==> {
            &&& q.before_seq matches Some(n) ==> line.seq < n
            &&& q.user matches Some(u) ==> text::lower(line.username) == text::lower(u@)
            &&& q.contains matches Some(c) ==> text::has(
                text::unicode_lower(line.text),
                text::unicode_lower(c@),
            )
        },
        q.limit is None ==> limit_of(q) == 50,
        q.limit matches Some(n) ==> (1 <= n <= 200 ==> limit_of(q) == n) && (n > 200 ==> limit_of(q)
            == 200) && (n == 0 ==> limit_of(q) == 1),
{
}

/// What a query finds are just the messages that it looks for, in their order.
pub proof fn law_queries_find_all(lines: Seq<Line>, line: Line, q: ChatHistoryQuery)
    ensures
        wanted(lines.push(line), q) == if is_wanted(line, q) {
            wanted(lines, q).push(line)
        } else {
            wanted(lines, q)
        },
        wanted(Seq::empty(), q) == Seq::<Line>::empty(),
        wanted(lines, q).contains(line) <==> lines.contains(line) && is_wanted(line, q),
    decreases lines.len(),
{
    assert(lines.push(line).drop_last() =~= lines);
    if lines.len() > 0 {
        let rest = lines.drop_last();
        law_queries_find_all(rest, line, q);
        let a = wanted(rest, q);
        let b = wanted(lines, q);
        if a.contains(line) {
            let i = a.index_of(line);
            assert(b[i] == line);
        }
        if lines.contains(line) && is_wanted(line, q) && !rest.contains(line) {
            let i = lines.index_of(line);
            if i < rest.len() {
                assert(rest[i] == line);
            }
            assert(b[b.len() - 1] == line);
        }
        if rest.contains(line) {
            let i = rest.index_of(line);
            assert(lines[i] == line);
        }
        if b.contains(line) && !a.contains(line) {
            let i = b.index_of(line);
            if i < a.len() {
                assert(a[i] == line);
            }
            assert(lines[lines.len() - 1] == line);
        }
    }
}

/// Of what is found, the newest messages are given, in their order.
pub proof fn law_newest_are_given(lines: Seq<Line>, limit: nat, i: int)
    requires
        0 <= i < newest(lines, limit).len(),
    ensures
        newest(lines, limit).len() == if lines.len() < limit {
            lines.len()
        } else {
            limit
        },
        newest(lines, limit)[i] == lines[lines.len() - newest(lines, limit).len() + i],
        newest(lines, limit).last() == lines.last(),
{
}

/// A line of the transcript tells the time of day in Berlin, who wrote, and what; the
/// transcript holds a line for each message.
pub proof fn law_transcript_tells_all(lines: Seq<Line>, i: int)
    requires
        0 <= i < lines.len(),
    ensures
        stamped(lines[i]) == "["@ + berlin::berlin_formatted(
            lines[i].timestamp.spec_secs(),
            "%H:%M"@,
        ) + "] "@ + lines[i].username + ": "@ + lines[i].text,
        text::has(transcript(lines), stamped(lines[i])),
{
    let all = Seq::new(lines.len(), |j: int| stamped(lines[j]));
    text::law_joined_holds_each(all, "\n"@, i);
    assert(all[i] == stamped(lines[i]));
}

/// A page tells the model each of its messages, with number, author, text and time, and
/// marks them as untrusted; it says whether there are more and where they go on.
pub proof fn law_page_tells_all(lines: Seq<Line>, has_more: bool, next: Option<u64>, i: int)
    requires
        0 <= i < lines.len(),
    ensures
        text::has(page_json(lines, has_more, next), line_json(lines[i])),
        text::has(line_json(lines[i]), "\"seq\":"@ + text::decimal(lines[i].seq as nat)),
        text::has(line_json(lines[i]), ",\"text\":"@ + json::json_quoted(lines[i].text)),
        text::has(line_json(lines[i]), ",\"username\":"@ + json::json_quoted(lines[i].username)),
        text::has(
            line_json(lines[i]),
            ",\"timestamp\":"@ + json::json_quoted(lines[i].timestamp.text()),
        ),
        lines[i].source == ChatHistorySource::Bot ==> text::has(
            line_json(lines[i]),
            ",\"source\":"@ + "\"bot\""@,
        ),
        lines[i].source == ChatHistorySource::User ==> text::has(
            line_json(lines[i]),
            ",\"source\":"@ + "\"user\""@,
        ),
        next matches Some(n) ==> text::has(
            page_json(lines, has_more, next),
            "\"next_before_seq\":"@ + text::decimal(n as nat),
        ),
        next is None ==> text::has(
            page_json(lines, has_more, next),
            "\"next_before_seq\":"@ + "null"@,
        ),
        has_more ==> text::has(page_json(lines, has_more, next), "\"has_more\":"@ + "true"@),
        !has_more ==> text::has(page_json(lines, has_more, next), "\"has_more\":"@ + "false"@),
        text::has(
            page_json(lines, has_more, next),
            "],\"messages_are_untrusted\":true,\"next_before_seq\":"@,
        ),
{
    broadcast use text::group_parts;

    let all = Seq::new(lines.len(), |j: int| line_json(lines[j]));
    text::law_joined_holds_each(all, ","@, i);
    assert(all[i] == line_json(lines[i]));
    let l = lines[i];
    let a = "{\"seq\":"@ + text::decimal(l.seq as nat);
    reveal_strlit("{\"seq\":");
    reveal_strlit("\"seq\":");
    reveal_strlit("{");
    assert("{\"seq\":"@ =~= "{"@ + "\"seq\":"@);
    assert(a =~= "{"@ + ("\"seq\":"@ + text::decimal(l.seq as nat)));
    let s = source_text(l.source);
    let b = ",\"source\":"@ + s;
    assert(a + ",\"source\":"@ + s =~= a + b);
    let t = json::json_quoted(l.text);
    let c = ",\"text\":"@ + t;
    assert(a + b + ",\"text\":"@ + t =~= a + b + c);
    let u = json::json_quoted(l.timestamp.text());
    let d = ",\"timestamp\":"@ + u;
    assert(a + b + c + ",\"timestamp\":"@ + u =~= a + b + c + d);
    let v = json::json_quoted(l.username);
    let e = ",\"username\":"@ + v;
    assert(a + b + c + d + ",\"username\":"@ + v =~= a + b + c + d + e);
    assert(line_json(l) =~= a + b + c + d + e + "}"@);
    lemma_page_parts(lines, has_more, next);
}

proof fn lemma_page_parts(lines: Seq<Line>, has_more: bool, next: Option<u64>)
    ensures
        text::has(page_json(lines, has_more, next), "\"has_more\":"@ + bool_json(has_more)),
        text::has(page_json(lines, has_more, next), "\"next_before_seq\":"@ + opt_json(next)),
{
    broadcast use text::group_parts;

    reveal_strlit("{\"has_more\":");
    reveal_strlit("\"has_more\":");
    reveal_strlit("{");
    let h = "\"has_more\":"@ + bool_json(has_more);
    assert("{\"has_more\":"@ =~= "{"@ + "\"has_more\":"@);
    assert("{\"has_more\":"@ + bool_json(has_more) =~= "{"@ + h);
    assert(text::has("{"@ + h, h));
    let m = "],\"messages_are_untrusted\":true,\"next_before_seq\":"@;
    let k = "\"next_before_seq\":"@;
    let g = "],\"messages_are_untrusted\":true,"@;
    reveal_strlit("],\"messages_are_untrusted\":true,\"next_before_seq\":");
    reveal_strlit("\"next_before_seq\":");
    reveal_strlit("],\"messages_are_untrusted\":true,");
    assert(m =~= g + k);
    let before = "{\"has_more\":"@ + bool_json(has_more) + ",\"max_limit\":"@ + text::decimal(
        MAX_TOOL_RESULT_MESSAGES as nat,
    ) + ",\"messages\":["@ + text::join(
        Seq::new(lines.len(), |i: int| line_json(lines[i])),
        ","@,
    );
    let o = opt_json(next);
    assert(before + m + o =~= before + g + (k + o));
    assert(text::has(before + m + o, k + o));
}

} // verus!

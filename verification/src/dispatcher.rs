//! Which command a chat message runs.
use vstd::prelude::*;
use crate::chat_history;
use crate::chat_history::ChatHistoryBuffer;
use crate::commands;
use crate::commands::ai;
use crate::commands::ping_trigger;
use crate::commands::{normalize_command_name, CommandContext, ReplyParent};
use crate::memory::scope;
use crate::memory::scope::{has_badge, Badge};
use crate::ping;
use crate::ping::PingManager;
use crate::suspend;
use crate::suspend::SuspensionManager;
use crate::text;
use crate::time::{Instant, Timestamp};

verus! {

/// A message in the chat.
#[derive(Debug, Clone)]
pub struct ChatMessage {
    pub channel_login: String,
    pub sender_id: String,
    pub sender_login: String,
    pub badges: Vec<Badge>,
    pub text: String,
    pub reply_parent: Option<ReplyParent>,
}

/// The commands.
#[derive(Debug, Clone, Copy, PartialEq, Eq, Structural)]
pub enum CommandKind {
    PingAdmin,
    Suspend,
    Unsuspend,
    RandomFlight,
    FlightsAbove,
    Leaderboard,
    Feedback,
    Track,
    Untrack,
    Flights,
    Flight,
    Ai,
    News,
    Tldr,
    PingTrigger,
}

/// The word that runs a command.
pub open spec fn trigger_of(kind: CommandKind) -> Seq<char> {
    match kind {
        CommandKind::PingAdmin => "!p"@,
        CommandKind::Suspend => "!suspend"@,
        CommandKind::Unsuspend => "!unsuspend"@,
        CommandKind::RandomFlight => "!fl"@,
        CommandKind::FlightsAbove => "!up"@,
        CommandKind::Leaderboard => "!lb"@,
        CommandKind::Feedback => "!fb"@,
        CommandKind::Track => "!track"@,
        CommandKind::Untrack => "!untrack"@,
        CommandKind::Flights => "!flights"@,
        CommandKind::Flight => "!flight"@,
        CommandKind::Ai => "!ai"@,
        CommandKind::News => "!news"@,
        CommandKind::Tldr => "!tldr"@,
        CommandKind::PingTrigger => "!<ping>"@,
    }
}

impl CommandKind {
    /// The name of the command. A ping is triggered by its own name instead.
    pub fn name(self) -> (r: &'static str)
        ensures
            r@ == trigger_of(self),
    {
        match self {
            CommandKind::PingAdmin => "!p",
            CommandKind::Suspend => "!suspend",
            CommandKind::Unsuspend => "!unsuspend",
            CommandKind::RandomFlight => "!fl",
            CommandKind::FlightsAbove => "!up",
            CommandKind::Leaderboard => "!lb",
            CommandKind::Feedback => "!fb",
            CommandKind::Track => "!track",
            CommandKind::Untrack => "!untrack",
            CommandKind::Flights => "!flights",
            CommandKind::Flight => "!flight",
            CommandKind::Ai => "!ai",
            CommandKind::News => "!news",
            CommandKind::Tldr => "!tldr",
            CommandKind::PingTrigger => "!<ping>",
        }
    }
}

/// The commands that the bot has, in the order in which they are tried. Triggers of pings
/// come last.
pub open spec fn available(aviation: bool, tracker: bool, model: bool) -> Seq<CommandKind> {
    seq![
        CommandKind::PingAdmin,
        CommandKind::Suspend,
        CommandKind::Unsuspend,
        CommandKind::RandomFlight,
    ] + (if aviation {
        seq![CommandKind::FlightsAbove]
    } else {
        Seq::empty()
    }) + seq![CommandKind::Leaderboard, CommandKind::Feedback] + (if tracker {
        seq![
            CommandKind::Track,
            CommandKind::Untrack,
            CommandKind::Flights,
            CommandKind::Flight,
        ]
    } else {
        Seq::empty()
    }) + (if model {
        seq![CommandKind::Ai, CommandKind::News, CommandKind::Tldr]
    } else {
        Seq::empty()
    }) + seq![CommandKind::PingTrigger]
}

/// The commands that the bot has, given whether there is a source of flight data, a flight
/// tracker, and a model.
pub fn command_list(aviation: bool, tracker: bool, model: bool) -> (r: Vec<CommandKind>)
    ensures
        r@ == available(aviation, tracker, model),
{
    let mut list: Vec<CommandKind> = Vec::new();
    list.push(CommandKind::PingAdmin);
    list.push(CommandKind::Suspend);
    list.push(CommandKind::Unsuspend);
    list.push(CommandKind::RandomFlight);
    if aviation {
        list.push(CommandKind::FlightsAbove);
    }
    list.push(CommandKind::Leaderboard);
    list.push(CommandKind::Feedback);
    if tracker {
        list.push(CommandKind::Track);
        list.push(CommandKind::Untrack);
        list.push(CommandKind::Flights);
        list.push(CommandKind::Flight);
    }
    if model {
        list.push(CommandKind::Ai);
        list.push(CommandKind::News);
        list.push(CommandKind::Tldr);
    }
    list.push(CommandKind::PingTrigger);
    assert(list@ =~= available(aviation, tracker, model));
    list
}

/// Whether a word runs a command.
pub open spec fn runs(kind: CommandKind, b: ping::Board, word: Seq<char>) -> bool {
    match kind {
        CommandKind::PingTrigger => ping_trigger::triggers(b, word),
        CommandKind::Ai => word == "!ai"@ || ai::grok_alias(word),
        _ => word == trigger_of(kind),
    }
}

fn is_run_by(kind: CommandKind, pings: &PingManager, word: &str) -> (r: bool)
    requires
        pings.wf(),
    ensures
        r == runs(kind, pings@, word@),
{
    match kind {
        CommandKind::PingTrigger => ping_trigger::matches(pings, word),
        CommandKind::Ai => ai::matches(word),
        _ => text::same(word, kind.name()),
    }
}

/// The first of some commands that a word runs.
pub open spec fn chosen(list: Seq<CommandKind>, b: ping::Board, word: Seq<char>) -> Option<
    CommandKind,
>
    decreases list.len(),
{
    if list.len() == 0 {
        None
    } else if runs(list[0], b, word) {
        Some(list[0])
    } else {
        chosen(list.drop_first(), b, word)
    }
}

fn choose_command(list: &Vec<CommandKind>, pings: &PingManager, word: &str) -> (r: Option<
    CommandKind,
>)
    requires
        pings.wf(),
    ensures
        r == chosen(list@, pings@, word@),
{
    let mut i: usize = 0;
    assert(list@.skip(0) =~= list@);
    while i < list.len()
        invariant
            pings.wf(),
            i <= list@.len(),
            chosen(list@, pings@, word@) == chosen(list@.skip(i as int), pings@, word@),
        decreases list@.len() - i,
    {
        assert(list@.skip(i as int)[0] == list@[i as int]);
        assert(list@.skip(i as int).drop_first() =~= list@.skip(i + 1));
        if is_run_by(list[i], pings, word) {
            return Some(list[i]);
        }
        i = i + 1;
    }
    None
}

/// Whether a message comes from the channel for admins.
pub open spec fn in_admin_channel(m: ChatMessage, admin_channel: Option<String>) -> bool {
    admin_channel matches Some(c) && m.channel_login@ == c@
}

/// Whether a message counts at all: in the channel for admins, only the broadcaster is
/// heard.
pub open spec fn is_heard(m: ChatMessage, admin_channel: Option<String>) -> bool {
    in_admin_channel(m, admin_channel) ==> scope::badge_names(m.badges@).contains("broadcaster"@)
}

fn from_admin_channel(m: &ChatMessage, admin_channel: &Option<String>) -> (r: bool)
    ensures
        r == in_admin_channel(*m, *admin_channel),
{
    match admin_channel {
        Some(c) => text::same(m.channel_login.as_str(), c.as_str()),
        None => false,
    }
}

/// Adds a message to the history, unless it comes from the channel for admins.
pub fn remember(
    history: &mut ChatHistoryBuffer,
    m: &ChatMessage,
    admin_channel: &Option<String>,
    now: Timestamp,
)
    requires
        old(history).wf(),
        old(history).next() < u64::MAX,
    ensures
        final(history).wf(),
        final(history).spec_capacity() == old(history).spec_capacity(),
        final(history).next() == if in_admin_channel(*m, *admin_channel) {
            old(history).next() as int
        } else {
            old(history).next() + 1
        },
        final(history)@ == if in_admin_channel(*m, *admin_channel) {
            old(history)@
        } else {
            chat_history::appended(
                old(history)@,
                old(history).spec_capacity(),
                chat_history::Line {
                    seq: old(history).next(),
                    source: chat_history::ChatHistorySource::User,
                    username: m.sender_login@,
                    text: m.text@,
                    timestamp: now,
                },
            )
        },
{
    if !from_admin_channel(m, admin_channel) {
        history.push_user(m.sender_login.clone(), m.text.clone(), now);
    }
}

/// A command that is run, with its words.
#[derive(Debug, Clone)]
pub struct Dispatch {
    pub kind: CommandKind,
    pub context: CommandContext,
}

/// Which command a message runs: the first that its first word runs, unless that word is
/// suspended.
pub open spec fn command_of(
    m: ChatMessage,
    admin_channel: Option<String>,
    list: Seq<CommandKind>,
    b: ping::Board,
    suspensions: Map<Seq<char>, int>,
    now: int,
) -> Option<CommandKind> {
    let words = text::words(m.text@);
    if !is_heard(m, admin_channel) || words.len() == 0 {
        None
    } else {
        match chosen(list, b, words[0]) {
            None => None,
            Some(kind) => if suspend::remaining(
                suspensions,
                commands::command_name(words[0]),
                now,
            ) is Some {
                None
            } else {
                Some(kind)
            },
        }
    }
}

/// Whether a message is heard.
pub fn hears(m: &ChatMessage, admin_channel: &Option<String>) -> (r: bool)
    ensures
        r == is_heard(*m, *admin_channel),
{
    !from_admin_channel(m, admin_channel) || has_badge(&m.badges, "broadcaster")
}

/// The author and the text of a message that is replied to.
pub open spec fn parent_view(p: Option<ReplyParent>) -> Option<(Seq<char>, Seq<char>)> {
    match p {
        Some(p) => Some((p.login@, p.text@)),
        None => None,
    }
}

fn copy_parent(p: &Option<ReplyParent>) -> (r: Option<ReplyParent>)
    ensures
        parent_view(r) == parent_view(*p),
{
    match p {
        Some(p) => Some(ReplyParent { login: p.login.clone(), text: p.text.clone() }),
        None => None,
    }
}

fn copy_badges(badges: &Vec<Badge>) -> (r: Vec<Badge>)
    ensures
        scope::badge_names(r@) == scope::badge_names(badges@),
{
    let mut out: Vec<Badge> = Vec::new();
    let mut i: usize = 0;
    while i < badges.len()
        invariant
            i <= badges@.len(),
            out@.len() == i,
            forall|j: int| 0 <= j < i ==> (#[trigger] out@[j]).name@ == badges@[j].name@,
        decreases badges@.len() - i,
    {
        out.push(
            Badge { name: badges[i].name.clone(), version: badges[i].version.clone() },
        );
        i = i + 1;
    }
    assert(scope::badge_names(out@) =~= scope::badge_names(badges@));
    out
}

/// Whether a command is given what stands in a message, and who wrote it.
pub open spec fn is_context_of(c: CommandContext, m: ChatMessage) -> bool {
    let words = text::words(m.text@);
    &&& words.len() > 0
    &&& c.trigger@ == words[0]
    &&& c.words() == words.drop_first()
    &&& c.message_text@ == m.text@
    &&& c.sender_id@ == m.sender_id@
    &&& c.sender_login@ == m.sender_login@
    &&& scope::badge_names(c.badges@) == scope::badge_names(m.badges@)
    &&& parent_view(c.reply_parent) == parent_view(m.reply_parent)
}

/// Finds the command that a message runs.
pub fn dispatch(
    m: &ChatMessage,
    admin_channel: &Option<String>,
    list: &Vec<CommandKind>,
    pings: &PingManager,
    suspensions: &SuspensionManager,
    now: Instant,
) -> (r: Option<Dispatch>)
    requires
        pings.wf(),
        suspensions.wf(),
    ensures
        match command_of(*m, *admin_channel, list@, pings@, suspensions@, now@) {
            None => r is None,
            Some(kind) => {
                &&& r matches Some(d)
                &&& d.kind == kind
                &&& d.context.sender_id@ == m.sender_id@
                &&& d.context.sender_login@ == m.sender_login@
                &&& scope::badge_names(d.context.badges@) == scope::badge_names(m.badges@)
                &&& d.context.message_text@ == m.text@
                &&& d.context.trigger@ == text::words(m.text@)[0]
                &&& d.context.words() == text::words(m.text@).drop_first()
                &&& parent_view(d.context.reply_parent) == parent_view(m.reply_parent)
            },
        },
        r matches Some(d) ==> is_context_of(d.context, *m),
{
    if !hears(m, admin_channel) {
        return None;
    }
    let mut words = text::split_words(m.text.as_str());
    assert(text::views(words@).len() == words@.len());
    if words.len() == 0 {
        return None;
    }
    let ghost all = text::views(words@);
    assert(all[0] == words@[0]@);
    let kind = match choose_command(list, pings, words[0].as_str()) {
        Some(kind) => kind,
        None => {
            return None;
        },
    };
    let key = normalize_command_name(words[0].as_str());
    if suspensions.is_suspended(key.as_str(), now).is_some() {
        return None;
    }
    let trigger = words.remove(0);
    assert(text::views(words@) =~= all.drop_first());
    Some(
        Dispatch {
            kind,
            context: CommandContext {
                sender_id: m.sender_id.clone(),
                sender_login: m.sender_login.clone(),
                badges: copy_badges(&m.badges),
                message_text: m.text.clone(),
                trigger,
                args: words,
                reply_parent: copy_parent(&m.reply_parent),
            },
        },
    )
}

proof fn lemma_chosen_runs(list: Seq<CommandKind>, b: ping::Board, word: Seq<char>, i: int)
    requires
        0 <= i < list.len(),
        runs(list[i], b, word),
    ensures
        chosen(list, b, word) is Some,
        exists|j: int|
            0 <= j <= i && runs(#[trigger] list[j], b, word) && chosen(list, b, word) == Some(
                list[j],
            ),
    decreases list.len(),
{
    if !runs(list[0], b, word) {
        lemma_chosen_runs(list.drop_first(), b, word, i - 1);
        let k = choose|k: int|
            0 <= k <= i - 1 && runs(#[trigger] list.drop_first()[k], b, word) && chosen(
                list.drop_first(),
                b,
                word,
            ) == Some(list.drop_first()[k]);
        assert(list[k + 1] == list.drop_first()[k]);
    }
}

/// No ping takes the place of a command of the bot, whatever its name is.
pub proof fn law_pings_do_not_shadow(
    aviation: bool,
    tracker: bool,
    model: bool,
    b: ping::Board,
    word: Seq<char>,
    kind: CommandKind,
)
    requires
        available(aviation, tracker, model).contains(kind),
        kind != CommandKind::PingTrigger,
        runs(kind, b, word),
    ensures
        chosen(available(aviation, tracker, model), b, word) matches Some(k) && k
            != CommandKind::PingTrigger,
{
    let list = available(aviation, tracker, model);
    let i = list.index_of(kind);
    assert(list[i] == kind);
    lemma_chosen_runs(list, b, word, i);
    let j = choose|j: int|
        0 <= j <= i && runs(#[trigger] list[j], b, word) && chosen(list, b, word) == Some(list[j]);
    assert(i < list.len() - 1);
    assert(list[j] != CommandKind::PingTrigger);
}

/// In the channel for admins, nobody but the broadcaster runs anything.
pub proof fn law_admin_channel_is_closed(
    m: ChatMessage,
    admin_channel: Option<String>,
    list: Seq<CommandKind>,
    b: ping::Board,
    suspensions: Map<Seq<char>, int>,
    now: int,
)
    requires
        in_admin_channel(m, admin_channel),
        !scope::badge_names(m.badges@).contains("broadcaster"@),
    ensures
        command_of(m, admin_channel, list, b, suspensions, now) is None,
{
}

/// A command that an admin has suspended, by any spelling of its name, is not run until
/// the time is over.
pub proof fn law_suspended_is_not_run(
    m: ChatMessage,
    admin_channel: Option<String>,
    list: Seq<CommandKind>,
    b: ping::Board,
    suspensions: Map<Seq<char>, int>,
    order: CommandContext,
    hidden: Seq<Seq<char>>,
    default_duration: int,
    now: int,
    later: int,
)
    requires
        commands::suspend::order(order, hidden, default_duration) is Ok,
        text::words(m.text@).len() > 0,
        commands::command_name(text::words(m.text@)[0]) == commands::command_name(
            order.words()[0],
        ),
        later < now + commands::suspend::order(order, hidden, default_duration)->Ok_0.1,
    ensures
        ({
            let o = commands::suspend::order(order, hidden, default_duration)->Ok_0;
            command_of(m, admin_channel, list, b, suspensions.insert(o.0, now + o.1), later) is None
        }),
{
    commands::suspend::law_suspension_is_found(
        suspensions,
        order,
        hidden,
        default_duration,
        text::words(m.text@)[0],
        now,
        later,
    );
}


/// A command is given the message as it stands: its first word, the others in their order,
/// who wrote it, and the author and the text of the message that it replies to.
pub proof fn law_commands_get_the_message(c: CommandContext, m: ChatMessage)
    requires
        is_context_of(c, m),
    ensures
        text::words(m.text@) == seq![c.trigger@] + text::views(c.args@),
        c.sender_id@ == m.sender_id@,
        c.sender_login@ == m.sender_login@,
        m.reply_parent matches Some(p) ==> (c.reply_parent matches Some(q) && q.login@ == p.login@
            && q.text@ == p.text@),
        m.reply_parent is None ==> c.reply_parent is None,
        c.from_mod() <==> {
            let names = scope::badge_names(m.badges@);
            names.contains("broadcaster"@) || names.contains("moderator"@)
        },
{
    let words = text::words(m.text@);
    assert(seq![words[0]] + words.drop_first() =~= words);
}

/// A message that begins with the word of a command that the bot has runs that command,
/// where it is heard and the command is not suspended. Only the commands that the bot has
/// can be run.
pub proof fn law_commands_are_run(
    m: ChatMessage,
    admin_channel: Option<String>,
    list: Seq<CommandKind>,
    b: ping::Board,
    suspensions: Map<Seq<char>, int>,
    now: int,
)
    requires
        text::words(m.text@).len() > 0,
    ensures
        ({
            let word = text::words(m.text@)[0];
            let r = command_of(m, admin_channel, list, b, suspensions, now);
            let suspended = suspensions.contains_key(text::lower(commands::command_name(word)))
                && suspensions[text::lower(commands::command_name(word))] > now;
            &&& r matches Some(k) ==> list.contains(k) && runs(k, b, word)
            &&& suspended ==> r is None
            &&& is_heard(m, admin_channel) && !suspended && (exists|i: int|
                0 <= i < list.len() && runs(#[trigger] list[i], b, word)) ==> r is Some
        }),
        admin_channel is None ==> is_heard(m, admin_channel),
{
    let word = text::words(m.text@)[0];
    lemma_chosen_is_listed(list, b, word);
    if exists|i: int| 0 <= i < list.len() && runs(#[trigger] list[i], b, word) {
        let i = choose|i: int| 0 <= i < list.len() && runs(#[trigger] list[i], b, word);
        lemma_chosen_runs(list, b, word, i);
    }
}

proof fn lemma_chosen_is_listed(list: Seq<CommandKind>, b: ping::Board, word: Seq<char>)
    ensures
        chosen(list, b, word) matches Some(k) ==> list.contains(k) && runs(k, b, word),
    decreases list.len(),
{
    if list.len() > 0 {
        lemma_chosen_is_listed(list.drop_first(), b, word);
        if runs(list[0], b, word) {
            assert(list.contains(list[0]));
        } else if let Some(k) = chosen(list.drop_first(), b, word) {
            let i = list.drop_first().index_of(k);
            assert(list[i + 1] == k);
        }
    }
}

/// What each command is run by, and which commands need flight data, a tracker or a model.
pub proof fn law_commands_have_words(
    b: ping::Board,
    word: Seq<char>,
    aviation: bool,
    tracker: bool,
    model: bool,
)
    ensures
        runs(CommandKind::PingAdmin, b, word) <==> word == "!p"@,
        runs(CommandKind::Suspend, b, word) <==> word == "!suspend"@,
        runs(CommandKind::Unsuspend, b, word) <==> word == "!unsuspend"@,
        runs(CommandKind::RandomFlight, b, word) <==> word == "!fl"@,
        runs(CommandKind::FlightsAbove, b, word) <==> word == "!up"@,
        runs(CommandKind::Leaderboard, b, word) <==> word == "!lb"@,
        runs(CommandKind::Feedback, b, word) <==> word == "!fb"@,
        runs(CommandKind::Track, b, word) <==> word == "!track"@,
        runs(CommandKind::Untrack, b, word) <==> word == "!untrack"@,
        runs(CommandKind::Flights, b, word) <==> word == "!flights"@,
        runs(CommandKind::Flight, b, word) <==> word == "!flight"@,
        runs(CommandKind::Ai, b, word) <==> word == "!ai"@ || text::lower(word) == text::lower(
            "@grok"@,
        ),
        runs(CommandKind::News, b, word) <==> word == "!news"@,
        runs(CommandKind::Tldr, b, word) <==> word == "!tldr"@,
        runs(CommandKind::PingTrigger, b, word) <==> ping_trigger::triggers(b, word),
        available(aviation, tracker, model).contains(CommandKind::FlightsAbove) <==> aviation,
        available(aviation, tracker, model).contains(CommandKind::Track) <==> tracker,
        available(aviation, tracker, model).contains(CommandKind::Untrack) <==> tracker,
        available(aviation, tracker, model).contains(CommandKind::Flights) <==> tracker,
        available(aviation, tracker, model).contains(CommandKind::Flight) <==> tracker,
        available(aviation, tracker, model).contains(CommandKind::Ai) <==> model,
        available(aviation, tracker, model).contains(CommandKind::News) <==> model,
        available(aviation, tracker, model).contains(CommandKind::Tldr) <==> model,
        available(aviation, tracker, model).last() == CommandKind::PingTrigger,
        available(aviation, tracker, model)[0] == CommandKind::PingAdmin,
        available(aviation, tracker, model)[1] == CommandKind::Suspend,
        available(aviation, tracker, model)[2] == CommandKind::Unsuspend,
        available(aviation, tracker, model)[3] == CommandKind::RandomFlight,
        available(aviation, tracker, model).contains(CommandKind::Leaderboard),
        available(aviation, tracker, model).contains(CommandKind::Feedback),
{
    let list = available(aviation, tracker, model);
    let a: int = if aviation {
        1
    } else {
        0
    };
    let t: int = if tracker {
        4
    } else {
        0
    };
    assert(list[4 + a] == CommandKind::Leaderboard);
    assert(list[5 + a] == CommandKind::Feedback);
    if aviation {
        assert(list[4] == CommandKind::FlightsAbove);
    }
    if tracker {
        assert(list[6 + a] == CommandKind::Track);
        assert(list[7 + a] == CommandKind::Untrack);
        assert(list[8 + a] == CommandKind::Flights);
        assert(list[9 + a] == CommandKind::Flight);
    }
    if model {
        assert(list[6 + a + t] == CommandKind::Ai);
        assert(list[7 + a + t] == CommandKind::News);
        assert(list[8 + a + t] == CommandKind::Tldr);
    }
}

/// In the channel for admins the broadcaster is heard; in other channels everyone is.
pub proof fn law_everyone_is_heard(m: ChatMessage, channel: String)
    ensures
        m.channel_login@ != channel@ ==> is_heard(m, Some(channel)),
        m.channel_login@ == channel@ ==> (is_heard(m, Some(channel)) <==> scope::badge_names(
            m.badges@,
        ).contains("broadcaster"@)),
{
}

} // verus!

//! Chat commands: who may run them, and what each of them answers.
use vstd::prelude::*;
use crate::memory::scope::{has_badge, Badge};
use crate::text;

pub mod ai;
pub mod feedback;
pub mod flights;
pub mod grok;
pub mod news;
pub mod ping_admin;
pub mod ping_trigger;
pub mod suspend;

verus! {

/// What a user without the rights for a command is told.
pub const ADMIN_DENIED_MSG: &'static str = "Das darfst du nicht FDM";

pub const FAILURE_MSG: &'static str = "Da ist was schiefgelaufen FDM";

pub const TIMEOUT_MSG: &'static str = "Das hat zu lange gedauert Waiting";

/// What came of asking a model.
#[derive(Debug, Clone)]
pub enum Completion {
    Text(String),
    Failed,
    TimedOut,
}

/// The chat message that another one replies to.
#[derive(Debug, Clone)]
pub struct ReplyParent {
    pub login: String,
    pub text: String,
}

/// A command in a chat message: who wrote it, and its words.
#[derive(Debug, Clone)]
pub struct CommandContext {
    pub sender_id: String,
    pub sender_login: String,
    pub badges: Vec<Badge>,
    /// The whole message.
    pub message_text: String,
    /// The first word, which matched the command.
    pub trigger: String,
    /// The other words.
    pub args: Vec<String>,
    pub reply_parent: Option<ReplyParent>,
}

impl CommandContext {
    /// The words after the first.
    pub open spec fn words(&self) -> Seq<Seq<char>> {
        text::views(self.args@)
    }

    /// The words after the first, in one text.
    pub open spec fn rest(&self) -> Seq<char> {
        text::join(self.words(), " "@)
    }

    pub fn joined_args(&self) -> (r: String)
        ensures
            r@ == self.rest(),
    {
        text::joined(&self.args, " ")
    }

    /// Whether the sender is a moderator or the broadcaster.
    pub open spec fn from_mod(&self) -> bool {
        let names = crate::memory::scope::badge_names(self.badges@);
        names.contains("broadcaster"@) || names.contains("moderator"@)
    }
}

/// Whether someone with some badges and an id may run admin commands.
pub open spec fn admin(badges: Seq<Badge>, sender_id: Seq<char>, hidden: Seq<Seq<char>>) -> bool {
    let names = crate::memory::scope::badge_names(badges);
    names.contains("broadcaster"@) || names.contains("moderator"@) || hidden.contains(sender_id)
}

/// Whether the author of a message may run admin commands: they have the badge of a
/// broadcaster or of a moderator, or their id is one of the hidden admins.
pub fn is_admin(badges: &Vec<Badge>, sender_id: &str, hidden_admin_ids: &Vec<String>) -> (r: bool)
    ensures
        r == admin(badges@, sender_id@, text::views(hidden_admin_ids@)),
{
    has_badge(badges, "broadcaster") || has_badge(badges, "moderator") || text::is_one_of(
        sender_id,
        hidden_admin_ids,
    )
}

/// The name of a command: without leading exclamation marks, and in lower case.
pub open spec fn command_name(raw: Seq<char>) -> Seq<char> {
    text::lower(text::strip_leading(raw, '!'))
}

/// The name of a command as a user writes it: leading `!`s are dropped, and ASCII letters
/// become lower case. Suspending a command and looking a suspension up both go by it.
pub fn normalize_command_name(raw: &str) -> (r: String)
    ensures
        r@ == command_name(raw@),
{
    let bare = text::trim_start_matches(raw, '!');
    text::to_ascii_lowercase(bare.as_str())
}

proof fn lemma_strip_twice(s: Seq<char>, c: char)
    ensures
        text::strip_leading(text::strip_leading(s, c), c) == text::strip_leading(s, c),
    decreases s.len(),
{
    if s.len() > 0 && s[0] == c {
        lemma_strip_twice(s.drop_first(), c);
    }
}

proof fn lemma_stripped_head(s: Seq<char>, c: char)
    ensures
        text::strip_leading(s, c).len() == 0 || text::strip_leading(s, c)[0] != c,
    decreases s.len(),
{
    if s.len() > 0 && s[0] == c {
        lemma_stripped_head(s.drop_first(), c);
    }
}

/// A name that is already normal stays as it is; and a leading `!` makes no difference.
pub proof fn law_command_name_is_stable(raw: Seq<char>)
    ensures
        command_name(command_name(raw)) == command_name(raw),
        command_name(seq!['!'] + raw) == command_name(raw),
{
    let s = text::strip_leading(raw, '!');
    lemma_stripped_head(raw, '!');
    let l = text::lower(s);
    assert(l.len() == s.len());
    if s.len() > 0 {
        assert(l[0] == text::lower_char(s[0]));
        assert(l[0] != '!');
    }
    assert(text::strip_leading(l, '!') == l);
    assert(text::lower(l) =~= l);
    assert((seq!['!'] + raw).drop_first() =~= raw);
}


/// Admins are the broadcaster, the moderators, and those whose ids are listed; nobody else.
pub proof fn law_admins_are_known(badges: Seq<Badge>, id: Seq<char>, hidden: Seq<Seq<char>>)
    ensures
        admin(badges, id, hidden) <==> hidden.contains(id) || exists|i: int|
            0 <= i < badges.len() && ((#[trigger] badges[i]).name@ == "broadcaster"@
                || badges[i].name@ == "moderator"@),
{
    let names = crate::memory::scope::badge_names(badges);
    if names.contains("broadcaster"@) {
        let i = names.index_of("broadcaster"@);
        assert(badges[i].name@ == "broadcaster"@);
    }
    if names.contains("moderator"@) {
        let i = names.index_of("moderator"@);
        assert(badges[i].name@ == "moderator"@);
    }
    if exists|i: int|
        0 <= i < badges.len() && ((#[trigger] badges[i]).name@ == "broadcaster"@ || badges[i].name@
            == "moderator"@) {
        let i = choose|i: int|
            0 <= i < badges.len() && ((#[trigger] badges[i]).name@ == "broadcaster"@
                || badges[i].name@ == "moderator"@);
        assert(names[i] == badges[i].name@);
    }
}

/// The words behind a command all stand in what is read as its text.
pub proof fn law_words_are_joined(ctx: CommandContext, i: int)
    requires
        0 <= i < ctx.args@.len(),
    ensures
        text::has(ctx.rest(), ctx.args@[i]@),
        ctx.words()[i] == ctx.args@[i]@,
        ctx.args@.len() == 1 ==> ctx.rest() == ctx.args@[0]@,
{
    text::law_joined_holds_each(ctx.words(), " "@, i);
}

} // verus!

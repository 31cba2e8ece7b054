//! The command `!<name>`, which triggers a ping.
use vstd::prelude::*;
use crate::cooldown;
use crate::cooldown::waiting_message;
use crate::ping;
use crate::ping::{PingManager, TriggerDecision};
use crate::text;
use crate::time::{Duration, Instant};

verus! {

/// The name in a word such as `!name`: what follows the `!`, where there is something.
pub open spec fn name_in(word: Seq<char>) -> Option<Seq<char>> {
    match text::after_prefix(word, "!"@) {
        Some(name) => if name.len() == 0 {
            None
        } else {
            Some(name)
        },
        None => None,
    }
}

fn bare_name(word: &str) -> (r: Option<String>)
    ensures
        text::opt_view(r) == name_in(word@),
{
    match text::strip_prefix(word, "!") {
        Some(name) => if text::char_count(name.as_str()) == 0 {
            None
        } else {
            Some(name)
        },
        None => None,
    }
}

/// The name of the ping that a word such as `!Name` triggers, in lower case.
pub fn parse_ping_trigger(word: &str) -> (r: Option<String>)
    ensures
        text::opt_view(r) == match name_in(word@) {
            Some(name) => Some(text::unicode_lower(name)),
            None => None,
        },
        name_in(word@) matches Some(name) ==> text::lower_known(name),
{
    match bare_name(word) {
        Some(name) => Some(text::to_lowercase(name.as_str())),
        None => None,
    }
}

/// Whether a word is `!` and the name of a ping, whatever the case of ASCII letters.
pub open spec fn triggers(b: ping::Board, word: Seq<char>) -> bool {
    name_in(word) matches Some(name) && exists|i: int|
        0 <= i < b.names.len() && text::same_ignore_case(#[trigger] b.names[i], name)
}

pub fn matches(manager: &PingManager, word: &str) -> (r: bool)
    requires
        manager.wf(),
    ensures
        r == triggers(manager@, word@),
{
    match bare_name(word) {
        Some(name) => manager.ping_exists_ignore_case(name.as_str()),
        None => false,
    }
}

/// What a trigger leads to in chat.
#[derive(Debug, Clone)]
pub enum TriggerReply {
    Nothing,
    /// A reply to the message.
    Reply(String),
    /// A message of its own.
    Say(String),
}

#[verifier::ext_equal]
pub ghost enum Answer {
    Nothing,
    Reply(Seq<char>),
    Say(Seq<char>),
}

impl TriggerReply {
    pub open spec fn view(&self) -> Answer {
        match *self {
            TriggerReply::Nothing => Answer::Nothing,
            TriggerReply::Reply(s) => Answer::Reply(s@),
            TriggerReply::Say(s) => Answer::Say(s@),
        }
    }
}

pub open spec fn answer(d: ping::Decision) -> Answer {
    match d {
        ping::Decision::Skip => Answer::Nothing,
        ping::Decision::OnCooldown(left) => Answer::Reply(cooldown::please_wait(left)),
        ping::Decision::Fire(message) => Answer::Say(message),
    }
}

/// Triggers the ping that a word names.
pub fn execute(
    manager: &mut PingManager,
    trigger: &str,
    sender: &str,
    default_cooldown: Duration,
    public: bool,
    now: Instant,
) -> (r: TriggerReply)
    requires
        old(manager).wf(),
    ensures
        final(manager).wf(),
        match name_in(trigger@) {
            None => r@ == Answer::Nothing && final(manager)@ == old(manager)@,
            Some(name) => {
                let lower = text::unicode_lower(name);
                let d = old(manager)@.decision(lower, sender@, default_cooldown@, public, now@);
                &&& r@ == answer(d)
                &&& final(manager)@ == if d is Fire {
                    old(manager)@.recorded(lower, now@)
                } else {
                    old(manager)@
                }
            },
        },
        name_in(trigger@) matches Some(name) ==> text::lower_known(name),
{
    let name = match parse_ping_trigger(trigger) {
        Some(name) => name,
        None => {
            return TriggerReply::Nothing;
        },
    };
    match manager.try_record_trigger(name.as_str(), sender, default_cooldown, public, now) {
        TriggerDecision::Skip => TriggerReply::Nothing,
        TriggerDecision::OnCooldown(left) => TriggerReply::Reply(waiting_message(left)),
        TriggerDecision::Fire(message) => TriggerReply::Say(message),
    }
}


/// A word triggers a ping where it is `!` and the name of one that is there, whatever the
/// case of its letters.
pub proof fn law_words_name_pings(b: ping::Board, name: Seq<char>, i: int)
    requires
        name.len() > 0,
    ensures
        name_in(seq!['!'] + name) == Some(name),
        name.len() > 0 && name[0] != '!' ==> name_in(name) is None,
        name_in(seq!['!']) is None,
        0 <= i < b.names.len() && text::lower(b.names[i]) == text::lower(name) ==> triggers(
            b,
            seq!['!'] + name,
        ),
        triggers(b, seq!['!'] + name) ==> exists|j: int|
            0 <= j < b.names.len() && text::lower(#[trigger] b.names[j]) == text::lower(name),
{
    reveal_strlit("!");
    let w = seq!['!'] + name;
    assert(w.subrange(0, 1) =~= "!"@);
    assert(w.skip(1) =~= name);
    assert(seq!['!'].subrange(0, 1) =~= "!"@);
    assert(seq!['!'].skip(1).len() == 0);
    if name[0] != '!' {
        assert(name.subrange(0, 1)[0] == name[0]);
        assert("!"@[0] == '!');
    }
    if 0 <= i < b.names.len() && text::lower(b.names[i]) == text::lower(name) {
        assert(text::same_ignore_case(b.names[i], name));
    }
    if triggers(b, w) {
        let j = choose|j: int|
            0 <= j < b.names.len() && text::same_ignore_case(#[trigger] b.names[j], name);
        assert(text::lower(b.names[j]) == text::lower(name));
    }
}

/// A ping that fires says just its message, one on cooldown is answered with how long to
/// wait, and nothing else is said.
pub proof fn law_pings_speak(d: ping::Decision)
    ensures
        d matches ping::Decision::Fire(m) ==> answer(d) == Answer::Say(m),
        d matches ping::Decision::OnCooldown(left) ==> (answer(d) matches Answer::Reply(s)
            && text::has(s, cooldown::remaining_text(left))),
        d is Skip ==> answer(d) is Nothing,
{
    broadcast use text::group_parts;

}

} // verus!

//! Cooldowns: how long each user has to wait before using a command again.
use vstd::prelude::*;
use crate::table::Table;
use crate::text;
use crate::time;
use crate::time::{Duration, Instant};

verus! {

/// When each user last used a command, and how long they wait after it.
#[derive(Debug, Clone)]
pub struct PerUserCooldown {
    cooldown: Duration,
    last_used: Table<Instant>,
}

/// How long a user still has to wait, in nanoseconds; `None` where they need not.
pub open spec fn left(
    last_used: Map<Seq<char>, int>,
    cooldown: int,
    user: Seq<char>,
    now: int,
) -> Option<int> {
    if last_used.contains_key(user) && time::passed(now, last_used[user]) < cooldown {
        Some(cooldown - time::passed(now, last_used[user]))
    } else {
        None
    }
}

impl PerUserCooldown {
    pub closed spec fn wf(&self) -> bool {
        self.last_used.wf()
    }

    /// When each user last used the command, in nanoseconds.
    pub closed spec fn view(&self) -> Map<Seq<char>, int> {
        self.last_used@.map_values(|i: Instant| i@)
    }

    /// How long the wait is, in nanoseconds.
    pub closed spec fn wait(&self) -> int {
        self.cooldown@
    }

    pub fn new(cooldown: Duration) -> (r: PerUserCooldown)
        ensures
            r.wf(),
            r.wait() == cooldown@,
            r@ == Map::<Seq<char>, int>::empty(),
    {
        let r = PerUserCooldown { cooldown, last_used: Table::new() };
        assert(r@ =~= Map::<Seq<char>, int>::empty());
        r
    }

    /// How long a user still has to wait.
    pub fn check(&self, user: &str, now: Instant) -> (r: Option<Duration>)
        requires
            self.wf(),
        ensures
            match r {
                Some(d) => left(self@, self.wait(), user@, now@) == Some(d@),
                None => left(self@, self.wait(), user@, now@) is None,
            },
    {
        match self.last_used.get(user) {
            Some(last) => {
                let elapsed = now.since(last);
                if elapsed.nanos < self.cooldown.nanos {
                    Some(Duration { nanos: self.cooldown.nanos - elapsed.nanos })
                } else {
                    None
                }
            },
            None => None,
        }
    }

    /// Records that a user has used the command.
    pub fn record(&mut self, user: &str, now: Instant)
        requires
            old(self).wf(),
        ensures
            final(self).wf(),
            final(self).wait() == old(self).wait(),
            final(self)@ == old(self)@.insert(user@, now@),
    {
        self.last_used.insert(user.to_owned(), now);
        assert(self@ =~= old(self)@.insert(user@, now@));
    }
}

/// A user who has used a command waits until the cooldown is over, and not after; nobody
/// else is held up.
pub proof fn law_wait_after_use(
    last_used: Map<Seq<char>, int>,
    cooldown: int,
    user: Seq<char>,
    other: Seq<char>,
    now: int,
    later: int,
)
    requires
        now <= later,
    ensures
        left(last_used.insert(user, now), cooldown, user, later) == if later - now < cooldown {
            Some(cooldown - (later - now))
        } else {
            None
        },
        other != user ==> left(last_used.insert(user, now), cooldown, other, later) == left(
            last_used,
            cooldown,
            other,
            later,
        ),
{
}

/// A duration in minutes and seconds.
pub open spec fn remaining_text(nanos: int) -> Seq<char> {
    let secs = nanos / 1_000_000_000;
    if secs >= 60 {
        text::decimal((secs / 60) as nat) + "m "@ + text::decimal((secs % 60) as nat) + "s"@
    } else {
        text::decimal(secs as nat) + "s"@
    }
}

/// Formats how long is still left of a cooldown.
pub fn format_cooldown_remaining(remaining: Duration) -> (r: String)
    ensures
        r@ == remaining_text(remaining@),
{
    let secs: u128 = remaining.as_secs();
    if secs >= 60 {
        let mut s = text::from_u128(secs / 60);
        s.push_str("m ");
        let rest = text::from_u128(secs % 60);
        s.push_str(rest.as_str());
        s.push_str("s");
        s
    } else {
        let mut s = text::from_u128(secs);
        s.push_str("s");
        s
    }
}

/// What a user who has to wait is told.
pub open spec fn please_wait(nanos: int) -> Seq<char> {
    "Bitte warte noch "@ + remaining_text(nanos) + " Waiting"@
}

pub fn waiting_message(remaining: Duration) -> (r: String)
    ensures
        r@ == please_wait(remaining@),
{
    let mut s = "Bitte warte noch ".to_owned();
    let left = format_cooldown_remaining(remaining);
    s.push_str(left.as_str());
    s.push_str(" Waiting");
    s
}


/// A wait below a minute is told in seconds, a longer one in minutes and seconds.
pub proof fn law_waits_are_told(nanos: int)
    requires
        0 <= nanos,
    ensures
        ({
            let secs = nanos / 1_000_000_000;
            &&& secs < 60 ==> remaining_text(nanos) == text::decimal(secs as nat) + "s"@
            &&& secs >= 60 ==> remaining_text(nanos) == text::decimal((secs / 60) as nat) + "m "@
                + text::decimal((secs % 60) as nat) + "s"@
        }),
        text::has(please_wait(nanos), remaining_text(nanos)),
{
    broadcast use text::group_parts;

}

/// Someone waits just as long as the cooldown still has to go since they last used the
/// command; who has not used it does not wait.
pub proof fn law_wait_is_what_is_left(
    last_used: Map<Seq<char>, int>,
    cooldown: int,
    user: Seq<char>,
    now: int,
)
    ensures
        !last_used.contains_key(user) ==> left(last_used, cooldown, user, now) is None,
        last_used.contains_key(user) && last_used[user] <= now ==> {
            let elapsed = now - last_used[user];
            &&& elapsed >= cooldown ==> left(last_used, cooldown, user, now) is None
            &&& elapsed < cooldown ==> left(last_used, cooldown, user, now) == Some(
                cooldown - elapsed,
            )
        },
{
}

} // verus!

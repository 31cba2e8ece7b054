//! The command `!fb`, with which users leave feedback.
use vstd::prelude::*;
use crate::berlin;
use crate::commands::{CommandContext, FAILURE_MSG};
use crate::config;
use crate::cooldown;
use crate::cooldown::{waiting_message, PerUserCooldown};
use crate::text;
use crate::time::{Duration, Instant, Timestamp};

verus! {

pub const FEEDBACK_FILENAME: &'static str = "feedback.txt";

/// The command, with the cooldown of each user.
#[derive(Debug, Clone)]
pub struct FeedbackCommand {
    pub cooldown: PerUserCooldown,
}

/// What is done with a piece of feedback.
#[derive(Debug, Clone)]
pub enum FeedbackStep {
    /// The user is told something, and nothing is kept.
    Reply(String),
    /// This line is added to the file.
    Save(String),
}

#[verifier::ext_equal]
pub ghost enum Step {
    Reply(Seq<char>),
    Save(Seq<char>),
}

impl FeedbackStep {
    pub open spec fn view(&self) -> Step {
        match *self {
            FeedbackStep::Reply(s) => Step::Reply(s@),
            FeedbackStep::Save(s) => Step::Save(s@),
        }
    }
}

/// What is done with a piece of feedback.
pub open spec fn step(c: PerUserCooldown, ctx: CommandContext, now: Timestamp, clock: int) -> Step {
    if config::is_blank(ctx.rest()) {
        Step::Reply("Benutzung: !fb <nachricht>"@)
    } else {
        match cooldown::left(c@, c.wait(), ctx.sender_login@, clock) {
            Some(left) => Step::Reply(cooldown::please_wait(left)),
            None => Step::Save(
                berlin::berlin_formatted(now.spec_secs(), berlin::DATETIME_FORMAT@) + " "@
                    + ctx.sender_login@ + ": "@ + ctx.rest() + "\n"@,
            ),
        }
    }
}

impl FeedbackCommand {
    pub fn new(cooldown: Duration) -> (r: FeedbackCommand)
        ensures
            r.cooldown.wf(),
            r.cooldown.wait() == cooldown@,
            r.cooldown@ == Map::<Seq<char>, int>::empty(),
    {
        FeedbackCommand { cooldown: PerUserCooldown::new(cooldown) }
    }

    /// Decides what is done with a piece of feedback. The cooldown starts where it is kept.
    pub fn execute(&mut self, ctx: &CommandContext, now: &Timestamp, clock: Instant) -> (r:
        FeedbackStep)
        requires
            old(self).cooldown.wf(),
        ensures
            final(self).cooldown.wf(),
            final(self).cooldown.wait() == old(self).cooldown.wait(),
            r@ == step(old(self).cooldown, *ctx, *now, clock@),
            final(self).cooldown@ == if r@ is Save {
                old(self).cooldown@.insert(ctx.sender_login@, clock@)
            } else {
                old(self).cooldown@
            },
    {
        let message = ctx.joined_args();
        let bare = text::trimmed(message.as_str());
        if text::char_count(bare.as_str()) == 0 {
            return FeedbackStep::Reply("Benutzung: !fb <nachricht>".to_owned());
        }
        if let Some(left) = self.cooldown.check(ctx.sender_login.as_str(), clock) {
            return FeedbackStep::Reply(waiting_message(left));
        }
        self.cooldown.record(ctx.sender_login.as_str(), clock);
        let mut line = berlin::format_datetime(now);
        line.push_str(" ");
        line.push_str(ctx.sender_login.as_str());
        line.push_str(": ");
        line.push_str(message.as_str());
        line.push_str("\n");
        FeedbackStep::Save(line)
    }
}

/// What a user is told once the file has been written, or could not be.
pub fn saved_reply(saved: bool) -> (r: &'static str)
    ensures
        r@ == if saved {
            "Feedback gespeichert Okayge"@
        } else {
            FAILURE_MSG@
        },
{
    if saved {
        "Feedback gespeichert Okayge"
    } else {
        FAILURE_MSG
    }
}


/// Feedback is kept in a line with the time in Berlin, the name of the user and all that they
/// wrote; without a message nothing is kept, nor while the user has to wait.
pub proof fn law_feedback_is_kept(
    c: PerUserCooldown,
    ctx: CommandContext,
    now: Timestamp,
    clock: int,
)
    ensures
        step(c, ctx, now, clock) is Save <==> text::trim(ctx.rest()).len() > 0 && cooldown::left(
            c@,
            c.wait(),
            ctx.sender_login@,
            clock,
        ) is None,
        step(c, ctx, now, clock) matches Step::Save(line) ==> line == berlin::berlin_formatted(
            now.spec_secs(),
            "%Y-%m-%dT%H:%M:%S"@,
        ) + " "@ + ctx.sender_login@ + ": "@ + ctx.rest() + "\n"@,
        cooldown::left(c@, c.wait(), ctx.sender_login@, clock) matches Some(left) ==> text::trim(
            ctx.rest(),
        ).len() > 0 ==> (step(c, ctx, now, clock) matches Step::Reply(s) && text::has(
            s,
            cooldown::remaining_text(left),
        )),
{
    broadcast use text::group_parts;

}

} // verus!

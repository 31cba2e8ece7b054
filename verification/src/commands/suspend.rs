//! The commands `!suspend` and `!unsuspend`, with which admins silence other commands
//! for a while.
use vstd::prelude::*;
use crate::commands;
use crate::commands::{is_admin, normalize_command_name, CommandContext, ADMIN_DENIED_MSG};
use crate::cooldown;
use crate::cooldown::format_cooldown_remaining;
use crate::suspend;
use crate::suspend::{parse_duration, ParseDurationError, SuspensionManager};
use crate::text;
use crate::time::{Duration, Instant};

verus! {

/// The commands that cannot be suspended.
pub open spec fn exempt_commands() -> Seq<Seq<char>> {
    seq!["suspend"@, "unsuspend"@, "p"@]
}

/// Whether a command, by its normal name, cannot be suspended.
pub fn is_exempt(name: &str) -> (r: bool)
    ensures
        r == exempt_commands().contains(name@),
{
    proof {
        let e = exempt_commands();
        assert(e[0] == "suspend"@ && e[1] == "unsuspend"@ && e[2] == "p"@);
    }
    text::same(name, "suspend") || text::same(name, "unsuspend") || text::same(name, "p")
}

pub open spec fn duration_error_text(err: ParseDurationError) -> Seq<char> {
    match err {
        ParseDurationError::Empty => "Dauer fehlt. Nutze z.B. 30s, 10m, 2h, 1d FDM"@,
        ParseDurationError::InvalidNumber => "Ungültige Zahl. Nutze z.B. 30s, 10m, 2h, 1d FDM"@,
        ParseDurationError::UnknownUnit => "Unbekannte Einheit. Erlaubt: s, m, h, d FDM"@,
        ParseDurationError::Zero => "Dauer muss größer als 0 sein FDM"@,
        ParseDurationError::TooLong => "Dauer zu lang (max 7 Tage) FDM"@,
    }
}

/// What a user is told of a duration that cannot be read.
pub fn duration_error_message(err: &ParseDurationError) -> (r: String)
    ensures
        r@ == duration_error_text(*err),
{
    match err {
        ParseDurationError::Empty => "Dauer fehlt. Nutze z.B. 30s, 10m, 2h, 1d FDM".to_owned(),
        ParseDurationError::InvalidNumber => {
            "Ungültige Zahl. Nutze z.B. 30s, 10m, 2h, 1d FDM".to_owned()
        },
        ParseDurationError::UnknownUnit => "Unbekannte Einheit. Erlaubt: s, m, h, d FDM".to_owned(),
        ParseDurationError::Zero => "Dauer muss größer als 0 sein FDM".to_owned(),
        ParseDurationError::TooLong => "Dauer zu lang (max 7 Tage) FDM".to_owned(),
    }
}

/// Which command `!suspend` suspends and for how long, in nanoseconds, or what it answers
/// instead.
pub open spec fn order(ctx: CommandContext, hidden: Seq<Seq<char>>, default_duration: int) -> Result<
    (Seq<char>, int),
    Seq<char>,
> {
    if !commands::admin(ctx.badges@, ctx.sender_id@, hidden) {
        Err(ADMIN_DENIED_MSG@)
    } else if ctx.words().len() == 0 {
        Err("Nutze: !suspend <command> [dauer]"@)
    } else {
        let name = commands::command_name(ctx.words()[0]);
        if exempt_commands().contains(name) {
            Err("Das kann nicht gesperrt werden FDM"@)
        } else if ctx.words().len() == 1 {
            Ok((name, default_duration))
        } else {
            match suspend::in_nanos(suspend::duration_secs(ctx.words()[1])) {
                Ok(nanos) => Ok((name, nanos)),
                Err(e) => Err(duration_error_text(e)),
            }
        }
    }
}

/// The longest time that `!suspend` may be left to choose, in nanoseconds.
pub open spec fn longest() -> int {
    suspend::MAX_SUSPEND_DURATION * 1_000_000_000
}

/// What `!suspend` answers, and what is suspended after it.
pub open spec fn suspended(
    m: Map<Seq<char>, int>,
    order: Result<(Seq<char>, int), Seq<char>>,
    now: int,
) -> (Seq<char>, Map<Seq<char>, int>) {
    match order {
        Err(e) => (e, m),
        Ok((name, nanos)) => (
            "!"@ + name + " gesperrt für "@ + cooldown::remaining_text(nanos),
            m.insert(name, now + nanos),
        ),
    }
}

/// Runs `!suspend <command> [duration]`.
pub fn execute_suspend(
    manager: &mut SuspensionManager,
    ctx: &CommandContext,
    hidden_admin_ids: &Vec<String>,
    default_duration: Duration,
    now: Instant,
) -> (r: String)
    requires
        old(manager).wf(),
        now@ + default_duration@ <= u128::MAX,
        now@ + longest() <= u128::MAX,
    ensures
        final(manager).wf(),
        match order(*ctx, text::views(hidden_admin_ids@), default_duration@) {
            Err(e) => r@ == e && final(manager)@ == old(manager)@,
            Ok((name, nanos)) => {
                &&& r@ == "!"@ + name + " gesperrt für "@ + cooldown::remaining_text(nanos)
                &&& final(manager)@ == old(manager)@.insert(name, now@ + nanos)
            },
        },
        (r@, final(manager)@) == suspended(
            old(manager)@,
            order(*ctx, text::views(hidden_admin_ids@), default_duration@),
            now@,
        ),
{
    if !is_admin(&ctx.badges, ctx.sender_id.as_str(), hidden_admin_ids) {
        return ADMIN_DENIED_MSG.to_owned();
    }
    assert(ctx.words().len() == ctx.args@.len());
    if ctx.args.len() == 0 {
        return "Nutze: !suspend <command> [dauer]".to_owned();
    }
    let name = normalize_command_name(ctx.args[0].as_str());
    if is_exempt(name.as_str()) {
        return "Das kann nicht gesperrt werden FDM".to_owned();
    }
    let duration = if ctx.args.len() == 1 {
        default_duration
    } else {
        proof {
            suspend::law_duration_in_range(ctx.words()[1]);
        }
        match parse_duration(ctx.args[1].as_str()) {
            Ok(d) => d,
            Err(e) => {
                return duration_error_message(&e);
            },
        }
    };
    manager.suspend(name.as_str(), duration, now);
    proof {
        commands::law_command_name_is_stable(ctx.words()[0]);
        assert(text::lower(name@) =~= name@);
    }
    let mut s = "!".to_owned();
    s.push_str(name.as_str());
    s.push_str(" gesperrt für ");
    let left = format_cooldown_remaining(duration);
    s.push_str(left.as_str());
    s
}

/// Which command `!unsuspend` releases, or what it answers instead.
pub open spec fn release(ctx: CommandContext, hidden: Seq<Seq<char>>) -> Result<
    Seq<char>,
    Seq<char>,
> {
    if !commands::admin(ctx.badges@, ctx.sender_id@, hidden) {
        Err(ADMIN_DENIED_MSG@)
    } else if ctx.words().len() == 0 {
        Err("Nutze: !unsuspend <command>"@)
    } else {
        Ok(commands::command_name(ctx.words()[0]))
    }
}

/// What `!unsuspend` answers, and what is suspended after it.
pub open spec fn released(
    m: Map<Seq<char>, int>,
    release: Result<Seq<char>, Seq<char>>,
    now: int,
) -> (Seq<char>, Map<Seq<char>, int>) {
    match release {
        Err(e) => (e, m),
        Ok(name) => (
            if suspend::remaining(m, name, now) is Some {
                "!"@ + name + " entsperrt Okayge"@
            } else {
                "!"@ + name + " war nicht gesperrt FDM"@
            },
            m.remove(name),
        ),
    }
}

/// Runs `!unsuspend <command>`.
pub fn execute_unsuspend(
    manager: &mut SuspensionManager,
    ctx: &CommandContext,
    hidden_admin_ids: &Vec<String>,
    now: Instant,
) -> (r: String)
    requires
        old(manager).wf(),
    ensures
        final(manager).wf(),
        match release(*ctx, text::views(hidden_admin_ids@)) {
            Err(e) => r@ == e && final(manager)@ == old(manager)@,
            Ok(name) => {
                &&& r@ == if suspend::remaining(old(manager)@, name, now@) is Some {
                    "!"@ + name + " entsperrt Okayge"@
                } else {
                    "!"@ + name + " war nicht gesperrt FDM"@
                }
                &&& final(manager)@ == old(manager)@.remove(name)
            },
        },
        (r@, final(manager)@) == released(
            old(manager)@,
            release(*ctx, text::views(hidden_admin_ids@)),
            now@,
        ),
{
    if !is_admin(&ctx.badges, ctx.sender_id.as_str(), hidden_admin_ids) {
        return ADMIN_DENIED_MSG.to_owned();
    }
    assert(ctx.words().len() == ctx.args@.len());
    if ctx.args.len() == 0 {
        return "Nutze: !unsuspend <command>".to_owned();
    }
    let name = normalize_command_name(ctx.args[0].as_str());
    let was = manager.unsuspend(name.as_str(), now);
    proof {
        assert(text::lower(name@) =~= name@);
    }
    let mut s = "!".to_owned();
    s.push_str(name.as_str());
    if was {
        s.push_str(" entsperrt Okayge");
    } else {
        s.push_str(" war nicht gesperrt FDM");
    }
    s
}

/// Whatever is ordered, a command that cannot be suspended is not suspended by it.
pub proof fn law_exempt_stay_free(
    m: Map<Seq<char>, int>,
    ctx: CommandContext,
    hidden: Seq<Seq<char>>,
    default_duration: int,
    word: Seq<char>,
    now: int,
    later: int,
)
    requires
        exempt_commands().contains(commands::command_name(word)),
        order(ctx, hidden, default_duration) is Ok,
    ensures
        ({
            let o = order(ctx, hidden, default_duration)->Ok_0;
            suspend::remaining(
                m.insert(o.0, now + o.1),
                commands::command_name(word),
                later,
            ) == suspend::remaining(m, commands::command_name(word), later)
        }),
{
    commands::law_command_name_is_stable(word);
    assert(text::lower(commands::command_name(word)) =~= commands::command_name(word));
}

/// A command that was suspended by any spelling of its name is found suspended under any
/// spelling of it, until the time is over.
pub proof fn law_suspension_is_found(
    m: Map<Seq<char>, int>,
    ctx: CommandContext,
    hidden: Seq<Seq<char>>,
    default_duration: int,
    word: Seq<char>,
    now: int,
    later: int,
)
    requires
        order(ctx, hidden, default_duration) is Ok,
        commands::command_name(word) == commands::command_name(ctx.words()[0]),
    ensures
        ({
            let o = order(ctx, hidden, default_duration)->Ok_0;
            suspend::remaining(m.insert(o.0, now + o.1), commands::command_name(word), later)
                == if now + o.1 > later {
                Some(now + o.1 - later)
            } else {
                None
            }
        }),
{
    assert(text::lower(commands::command_name(word)) =~= commands::command_name(word));
}


/// An admin suspends a command for the time that they give, or for the default where they
/// give none, but for `!suspend`, `!unsuspend` and `!p`. Nobody else suspends or releases
/// anything.
pub proof fn law_admins_suspend(ctx: CommandContext, hidden: Seq<Seq<char>>, default_duration: int)
    ensures
        !commands::admin(ctx.badges@, ctx.sender_id@, hidden) ==> order(
            ctx,
            hidden,
            default_duration,
        ) is Err && release(ctx, hidden) is Err,
        commands::admin(ctx.badges@, ctx.sender_id@, hidden) && ctx.words().len() > 0 ==> {
            let name = commands::command_name(ctx.words()[0]);
            let exempt = name == "suspend"@ || name == "unsuspend"@ || name == "p"@;
            &&& release(ctx, hidden) == Ok::<Seq<char>, Seq<char>>(name)
            &&& exempt ==> order(ctx, hidden, default_duration) is Err
            &&& !exempt && ctx.words().len() == 1 ==> order(ctx, hidden, default_duration) == Ok::<
                (Seq<char>, int),
                Seq<char>,
            >((name, default_duration))
            &&& !exempt && ctx.words().len() > 1 ==> match suspend::duration_secs(ctx.words()[1]) {
                Ok(secs) => order(ctx, hidden, default_duration) == Ok::<
                    (Seq<char>, int),
                    Seq<char>,
                >((name, (1_000_000_000 * secs) as int)),
                Err(_) => order(ctx, hidden, default_duration) is Err,
            }
        },
{
    let e = exempt_commands();
    assert(e[0] == "suspend"@ && e[1] == "unsuspend"@ && e[2] == "p"@);
}


/// After a suspension the command stays suspended for the time, and no other is touched; the
/// answer names both. An order that is refused changes nothing.
pub proof fn law_suspended_for_the_time(
    m: Map<Seq<char>, int>,
    name: Seq<char>,
    nanos: int,
    now: int,
    other: Seq<char>,
    e: Seq<char>,
)
    requires
        text::lower(name) == name,
        nanos > 0,
    ensures
        ({
            let (reply, after) = suspended(m, Ok((name, nanos)), now);
            &&& suspend::remaining(after, name, now) == Some(nanos)
            &&& suspend::remaining(after, name, now + nanos) is None
            &&& text::lower(other) != name ==> suspend::remaining(after, other, now)
                == suspend::remaining(m, other, now)
            &&& text::has_prefix(reply, "!"@ + name)
            &&& text::has_suffix(reply, cooldown::remaining_text(nanos))
        }),
        suspended(m, Err(e), now) == (e, m),
{
    broadcast use text::group_parts;

}

/// After a release the command is free and no other is touched; a suspension that is released
/// is as if it had never been ordered.
pub proof fn law_released_is_free(
    m: Map<Seq<char>, int>,
    name: Seq<char>,
    nanos: int,
    now: int,
    other: Seq<char>,
    e: Seq<char>,
)
    requires
        text::lower(name) == name,
        nanos > 0,
    ensures
        suspend::remaining(released(m, Ok(name), now).1, name, now) is None,
        text::lower(other) != name ==> suspend::remaining(
            released(m, Ok(name), now).1,
            other,
            now,
        ) == suspend::remaining(m, other, now),
        released(suspended(m, Ok((name, nanos)), now).1, Ok(name), now).0 == "!"@ + name
            + " entsperrt Okayge"@,
        suspend::remaining(m, name, now) is None ==> released(m, Ok(name), now).0 == "!"@ + name
            + " war nicht gesperrt FDM"@,
        released(m, Err(e), now) == (e, m),
{
}

} // verus!

//! Connecting to Twitch: which channels are joined, and whether the login was accepted.
use vstd::prelude::*;
use crate::text;

verus! {

/// How long the login may take, in seconds.
pub const LOGIN_TIMEOUT_SECS: u64 = 30;

pub const MISSING_SCOPES: &'static str =
    "Failed to authenticate with Twitch. This is likely due to missing token scopes. Ensure your token has 'chat:read' and 'chat:edit' scopes.";

pub const INVALID_TOKEN: &'static str =
    "Failed to authenticate with Twitch. This is likely due to an invalid or expired token. Check your TWITCH_ACCESS_TOKEN and TWITCH_REFRESH_TOKEN.";

pub const CLOSED: &'static str = "Connection closed during verification";

pub const TIMED_OUT: &'static str = "Connection to Twitch timed out";

/// The channels that are joined.
pub open spec fn joined_channels(channel: Seq<char>, admin_channel: Option<Seq<char>>) -> Seq<
    Seq<char>,
> {
    match admin_channel {
        Some(a) => if a == channel {
            seq![channel]
        } else {
            seq![channel, a]
        },
        None => seq![channel],
    }
}

/// What an event says of the login: that it was accepted, why it failed, or nothing.
pub open spec fn verdict(event: LoginEvent) -> Option<Result<(), Seq<char>>> {
    match event {
        LoginEvent::Notice(notice) => if notice@ == "Login authentication failed"@ {
            Some(Err(MISSING_SCOPES@))
        } else if notice@ == "Login unsuccessful"@ {
            Some(Err(INVALID_TOKEN@))
        } else {
            None
        },
        LoginEvent::GlobalUserState => Some(Ok(())),
        LoginEvent::Other => None,
        LoginEvent::Closed => Some(Err(CLOSED@)),
    }
}

/// The channels that are joined: that of the bot, and that for admins where there is one.
pub fn wanted_channels(channel: &str, admin_channel: &Option<String>) -> (r: Vec<String>)
    ensures
        text::views(r@) == match *admin_channel {
            Some(a) => if a@ == channel@ {
                seq![channel@]
            } else {
                seq![channel@, a@]
            },
            None => seq![channel@],
        },
        text::views(r@) == joined_channels(channel@, text::opt_view(*admin_channel)),
{
    let mut channels: Vec<String> = Vec::new();
    channels.push(channel.to_owned());
    if let Some(a) = admin_channel {
        if !text::same(a.as_str(), channel) {
            channels.push(a.clone());
        }
    }
    assert(text::views(channels@) =~= match *admin_channel {
        Some(a) => if a@ == channel@ {
            seq![channel@]
        } else {
            seq![channel@, a@]
        },
        None => seq![channel@],
    });
    channels
}

/// What comes from the server while the login is checked.
#[derive(Debug, Clone)]
pub enum LoginEvent {
    Notice(String),
    GlobalUserState,
    Other,
    /// The connection was closed.
    Closed,
}

/// What is done about it.
#[derive(Debug, Clone)]
pub enum LoginStep {
    Wait,
    Verified,
    Failed(&'static str),
}

/// Decides whether the login was accepted.
pub fn on_login_event(event: &LoginEvent) -> (r: LoginStep)
    ensures
        match *event {
            LoginEvent::Notice(notice) => if notice@ == "Login authentication failed"@ {
                r matches LoginStep::Failed(e) && e@ == MISSING_SCOPES@
            } else if notice@ == "Login unsuccessful"@ {
                r matches LoginStep::Failed(e) && e@ == INVALID_TOKEN@
            } else {
                r is Wait
            },
            LoginEvent::GlobalUserState => r is Verified,
            LoginEvent::Other => r is Wait,
            LoginEvent::Closed => r matches LoginStep::Failed(e) && e@ == CLOSED@,
        },
        match r {
            LoginStep::Wait => verdict(*event) is None,
            LoginStep::Verified => verdict(*event) == Some(Ok::<(), Seq<char>>(())),
            LoginStep::Failed(e) => verdict(*event) == Some(Err::<(), Seq<char>>(e@)),
        },
{
    match event {
        LoginEvent::Notice(notice) => if text::same(notice.as_str(), "Login authentication failed") {
            LoginStep::Failed(MISSING_SCOPES)
        } else if text::same(notice.as_str(), "Login unsuccessful") {
            LoginStep::Failed(INVALID_TOKEN)
        } else {
            LoginStep::Wait
        },
        LoginEvent::GlobalUserState => LoginStep::Verified,
        LoginEvent::Other => LoginStep::Wait,
        LoginEvent::Closed => LoginStep::Failed(CLOSED),
    }
}


/// The channel of the bot is joined first, then the one for admins, and none of them twice.
pub proof fn law_channels_are_joined(channel: Seq<char>, admin: Seq<char>)
    ensures
        joined_channels(channel, None) == seq![channel],
        joined_channels(channel, Some(admin))[0] == channel,
        joined_channels(channel, Some(admin)).contains(admin),
        joined_channels(channel, Some(admin)).no_duplicates(),
        joined_channels(channel, Some(admin)).len() <= 2,
{
    let all = joined_channels(channel, Some(admin));
    assert(all[all.len() - 1] == admin);
}

/// The login is accepted once the server tells the state of the user; it fails where the
/// server says so or hangs up, and anything else is waited out.
pub proof fn law_login_is_decided(event: LoginEvent)
    ensures
        event is GlobalUserState <==> verdict(event) == Some(Ok::<(), Seq<char>>(())),
        event is Closed ==> verdict(event) matches Some(Err(_)),
        event matches LoginEvent::Notice(n) ==> ((n@ == "Login authentication failed"@ || n@
            == "Login unsuccessful"@) <==> verdict(event) is Some) && !(verdict(event) == Some(
            Ok::<(), Seq<char>>(()),
        )),
        event is Other ==> verdict(event) is None,
{
}

} // verus!

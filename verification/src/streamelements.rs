//! The commands of a StreamElements bot.
use vstd::prelude::*;

verus! {

pub const COMMANDS_URL: &'static str = "https://api.streamelements.com/kappa/v2/bot/commands/";

/// A command with all its settings.
#[derive(Debug, Clone)]
pub struct Command {
    pub cooldown: CommandCooldown,
    pub aliases: Vec<String>,
    pub keywords: Vec<String>,
    pub enabled: bool,
    pub enabled_online: bool,
    pub enabled_offline: bool,
    pub hidden: bool,
    pub cost: i64,
    pub command_type: String,
    pub access_level: i64,
    pub id: String,
    pub regex: Option<String>,
    pub reply: String,
    pub command: String,
    pub channel: String,
    pub created_at: String,
    pub updated_at: String,
}

/// How long users wait between uses of a command, in seconds.
#[derive(Debug, Clone, Copy, PartialEq, Eq, Structural)]
pub struct CommandCooldown {
    /// For each user.
    pub user: i64,
    /// For all users.
    pub global: i64,
}

/// An error of the API.
#[derive(Debug, Clone)]
pub struct Error {
    pub status_code: i64,
    pub error: String,
    pub message: String,
    pub details: Vec<ErrorDetail>,
}

/// What is wrong with a field.
#[derive(Debug, Clone)]
pub struct ErrorDetail {
    pub path: Vec<String>,
    pub message: String,
}

/// Where the commands of a channel, or one of them, are.
pub open spec fn address(channel_id: Seq<char>, id: Option<Seq<char>>) -> Seq<char> {
    match id {
        Some(id) => COMMANDS_URL@ + channel_id + "/"@ + id,
        None => COMMANDS_URL@ + channel_id,
    }
}

/// Where the commands of a channel are.
pub fn commands_url(channel_id: &str) -> (r: String)
    ensures
        r@ == COMMANDS_URL@ + channel_id@,
        r@ == address(channel_id@, None),
{
    let mut s = COMMANDS_URL.to_owned();
    s.push_str(channel_id);
    s
}

/// Where a command of a channel is.
pub fn command_url(channel_id: &str, command: &Command) -> (r: String)
    ensures
        r@ == COMMANDS_URL@ + channel_id@ + "/"@ + command.id@,
        r@ == address(channel_id@, Some(command.id@)),
{
    let mut s = commands_url(channel_id);
    s.push_str("/");
    s.push_str(command.id.as_str());
    s
}


/// A command stands below the commands of its channel, which stand below those of all.
pub proof fn law_addresses_are_nested(channel_id: Seq<char>, id: Seq<char>)
    ensures
        address(channel_id, None) == "https://api.streamelements.com/kappa/v2/bot/commands/"@
            + channel_id,
        address(channel_id, Some(id)) == address(channel_id, None) + "/"@ + id,
{
}

} // verus!

//! The commands of the flight tracker: `!track`, `!untrack`, `!flights` and `!flight`.
use vstd::prelude::*;
use crate::commands::CommandContext;
use crate::flight_tracker;
use crate::flight_tracker::FlightIdentifier;
use crate::memory::scope::has_badge;
use crate::text;

verus! {

/// What the flight tracker is asked to do.
#[derive(Debug, Clone)]
pub enum TrackerRequest {
    Track { identifier: FlightIdentifier, requested_by: String },
    Untrack { identifier: String, requested_by: String, is_mod: bool },
    Status { identifier: Option<String> },
    /// Nothing; the user is told this.
    Usage(String),
}

#[verifier::ext_equal]
pub ghost enum Asked {
    Track { identifier: flight_tracker::Identifier, requested_by: Seq<char> },
    Untrack { identifier: Seq<char>, requested_by: Seq<char>, is_mod: bool },
    Status { identifier: Option<Seq<char>> },
    Usage(Seq<char>),
}

impl TrackerRequest {
    pub open spec fn view(&self) -> Asked {
        match *self {
            TrackerRequest::Track { identifier, requested_by } => Asked::Track {
                identifier: identifier@,
                requested_by: requested_by@,
            },
            TrackerRequest::Untrack { identifier, requested_by, is_mod } => Asked::Untrack {
                identifier: identifier@,
                requested_by: requested_by@,
                is_mod,
            },
            TrackerRequest::Status { identifier } => Asked::Status {
                identifier: text::opt_view(identifier),
            },
            TrackerRequest::Usage(s) => Asked::Usage(s@),
        }
    }
}

pub open spec fn is_blank(s: Seq<char>) -> bool {
    text::trim(s).len() == 0
}

/// What a user asks for who wants a flight tracked.
pub open spec fn asked_to_track(input: Seq<char>, user: Seq<char>) -> Asked {
    Asked::Track { identifier: flight_tracker::identifier_of(input), requested_by: user }
}

/// What a user asks for who wants a flight tracked no longer.
pub open spec fn asked_to_untrack(input: Seq<char>, user: Seq<char>, is_mod: bool) -> Asked {
    Asked::Untrack { identifier: text::trim(input), requested_by: user, is_mod }
}

/// What a user asks for who wants to know about a flight.
pub open spec fn asked_for_status(input: Seq<char>) -> Asked {
    Asked::Status { identifier: Some(text::trim(input)) }
}

/// Reads `!track <callsign/hex>`.
pub fn track(ctx: &CommandContext) -> (r: TrackerRequest)
    ensures
        r@ == if is_blank(ctx.rest()) {
            Asked::Usage("Benutzung: !track <callsign/hex> FDM"@)
        } else {
            Asked::Track {
                identifier: flight_tracker::identifier_of(ctx.rest()),
                requested_by: ctx.sender_login@,
            }
        },
        r@ is Usage || r@ == asked_to_track(ctx.rest(), ctx.sender_login@),
{
    let input = ctx.joined_args();
    let bare = text::trimmed(input.as_str());
    if text::char_count(bare.as_str()) == 0 {
        return TrackerRequest::Usage("Benutzung: !track <callsign/hex> FDM".to_owned());
    }
    TrackerRequest::Track {
        identifier: FlightIdentifier::parse(input.as_str()),
        requested_by: ctx.sender_login.clone(),
    }
}

/// Reads `!untrack <callsign/hex>`.
pub fn untrack(ctx: &CommandContext) -> (r: TrackerRequest)
    ensures
        r@ == if is_blank(ctx.rest()) {
            Asked::Usage("Benutzung: !untrack <callsign/hex> FDM"@)
        } else {
            Asked::Untrack {
                identifier: text::trim(ctx.rest()),
                requested_by: ctx.sender_login@,
                is_mod: ctx.from_mod(),
            }
        },
        r@ is Usage || r@ == asked_to_untrack(ctx.rest(), ctx.sender_login@, ctx.from_mod()),
{
    let input = ctx.joined_args();
    let bare = text::trimmed(input.as_str());
    if text::char_count(bare.as_str()) == 0 {
        return TrackerRequest::Usage("Benutzung: !untrack <callsign/hex> FDM".to_owned());
    }
    TrackerRequest::Untrack {
        identifier: bare,
        requested_by: ctx.sender_login.clone(),
        is_mod: has_badge(&ctx.badges, "moderator") || has_badge(&ctx.badges, "broadcaster"),
    }
}

/// Reads `!flights`.
pub fn flights() -> (r: TrackerRequest)
    ensures
        r@ == (Asked::Status { identifier: None }),
{
    TrackerRequest::Status { identifier: None }
}

/// Reads `!flight <callsign/hex>`.
pub fn flight(ctx: &CommandContext) -> (r: TrackerRequest)
    ensures
        r@ == if is_blank(ctx.rest()) {
            Asked::Usage("Benutzung: !flight <callsign/hex> FDM"@)
        } else {
            Asked::Status { identifier: Some(text::trim(ctx.rest())) }
        },
        r@ is Usage || r@ == asked_for_status(ctx.rest()),
{
    let input = ctx.joined_args();
    let bare = text::trimmed(input.as_str());
    if text::char_count(bare.as_str()) == 0 {
        return TrackerRequest::Usage("Benutzung: !flight <callsign/hex> FDM".to_owned());
    }
    TrackerRequest::Status { identifier: Some(bare) }
}


/// Requests name the flight that the user wrote, without white space around it, and the user
/// themselves; whether they are a moderator goes along.
pub proof fn law_requests_name_the_flight(input: Seq<char>, user: Seq<char>, is_mod: bool)
    ensures
        asked_to_track(input, user) matches Asked::Track { identifier, requested_by }
            && requested_by == user && identifier.name() == text::unicode_upper(text::trim(input)),
        asked_to_untrack(input, user, is_mod) matches Asked::Untrack {
            identifier,
            requested_by,
            is_mod: m,
        } && identifier == text::trim(input) && requested_by == user && m == is_mod,
        asked_for_status(input) == (Asked::Status { identifier: Some(text::trim(input)) }),
{
}

} // verus!

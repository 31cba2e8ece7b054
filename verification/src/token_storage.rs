//! Which access token is used: the one that was stored, or a fresh one.
use vstd::prelude::*;
use crate::text;

verus! {

pub const TOKEN_FILENAME: &'static str = "token.ron";

/// Where a token comes from.
#[derive(Debug, Clone, Copy, PartialEq, Eq, Structural)]
pub enum TokenSource {
    /// The token that was stored.
    Stored,
    /// A token that is made from the configuration, and is renewed at once.
    Configuration,
}

/// Where the token comes from.
pub open spec fn source_of(stored: Option<Seq<char>>, configured: Seq<char>) -> TokenSource {
    if stored == Some(configured) {
        TokenSource::Stored
    } else {
        TokenSource::Configuration
    }
}

/// Decides which token is used, given the refresh token of the one that was stored, where
/// there is one. The stored token counts only while its refresh token is the configured
/// one.
pub fn choose_token(stored_refresh_token: &Option<String>, configured: &str) -> (r: TokenSource)
    ensures
        r == match *stored_refresh_token {
            Some(stored) => if stored@ == configured@ {
                TokenSource::Stored
            } else {
                TokenSource::Configuration
            },
            None => TokenSource::Configuration,
        },
        r == source_of(text::opt_view(*stored_refresh_token), configured@),
{
    match stored_refresh_token {
        Some(stored) => if text::same(stored.as_str(), configured) {
            TokenSource::Stored
        } else {
            TokenSource::Configuration
        },
        None => TokenSource::Configuration,
    }
}


/// A stored token is used just while it goes with the configured one; a new configuration
/// takes its place.
pub proof fn law_new_configuration_replaces_the_token(stored: Seq<char>, configured: Seq<char>)
    ensures
        source_of(Some(stored), stored) == TokenSource::Stored,
        stored != configured ==> source_of(Some(stored), configured) == TokenSource::Configuration,
        source_of(None, configured) == TokenSource::Configuration,
{
}

} // verus!

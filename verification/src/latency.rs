//! Measuring the latency of the connection.
use vstd::prelude::*;
use crate::text;

verus! {

/// The time between measurements, in seconds.
pub const LATENCY_PING_INTERVAL_SECS: u64 = 300;

/// How long an answer is waited for, in seconds.
pub const LATENCY_PING_TIMEOUT_SECS: u64 = 10;

/// How far the estimate must move before it is reported again, in milliseconds.
pub const LATENCY_LOG_THRESHOLD: u32 = 10;

/// Whether an answer is the one to a question with some mark.
pub open spec fn answers(params: Seq<Seq<char>>, nonce: Seq<char>) -> bool {
    params.len() > 1 && params[1] == nonce
}

/// Whether an estimate has moved far enough to be reported.
pub open spec fn has_moved(estimate: int, last_reported: int) -> bool {
    estimate - last_reported >= LATENCY_LOG_THRESHOLD || last_reported - estimate
        >= LATENCY_LOG_THRESHOLD
}

/// Whether an answer is the one to our own question. Others belong to the keepalive of the
/// connection.
pub fn is_own_pong(params: &Vec<String>, nonce: &str) -> (r: bool)
    ensures
        r == (params@.len() > 1 && params@[1]@ == nonce@),
        r == answers(text::views(params@), nonce@),
{
    params.len() > 1 && text::same(params[1].as_str(), nonce)
}

/// Whether an estimate is far enough from the one that was last reported.
pub fn is_reported(estimate: u32, last_reported: u32) -> (r: bool)
    ensures
        r == (estimate - last_reported >= LATENCY_LOG_THRESHOLD || last_reported - estimate
            >= LATENCY_LOG_THRESHOLD),
        r == has_moved(estimate as int, last_reported as int),
{
    if estimate >= last_reported {
        estimate - last_reported >= LATENCY_LOG_THRESHOLD
    } else {
        last_reported - estimate >= LATENCY_LOG_THRESHOLD
    }
}


/// Only the answer that holds our mark counts; it stands behind the name of the server.
pub proof fn law_own_answers_count(server: Seq<char>, mark: Seq<char>, nonce: Seq<char>)
    ensures
        answers(seq![server, mark], nonce) <==> mark == nonce,
        !answers(seq![mark], nonce),
        !answers(Seq::empty(), nonce),
{
}

/// An estimate is reported once it is 10 milliseconds off in either direction.
pub proof fn law_moves_are_reported(estimate: int, last_reported: int)
    ensures
        has_moved(estimate, last_reported) <==> !(-10 < estimate - last_reported < 10),
        has_moved(estimate, last_reported) == has_moved(last_reported, estimate),
{
}

} // verus!

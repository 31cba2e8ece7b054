#![allow(unused_imports)]
//! Verified core of a Twitch chat bot.
use vstd::prelude::*;

pub mod aviation;
pub mod berlin;
pub mod chat_history;
pub mod clock;
pub mod commands;
pub mod config;
pub mod cooldown;
pub mod dispatcher;
pub mod flight_tracker;
pub mod json;
pub mod latency;
pub mod llm;
pub mod memory;
pub mod openrouter;
pub mod order;
pub mod ping;
pub mod schedule;
pub mod seventv;
pub mod streamelements;
pub mod suspend;
pub mod table;
pub mod text;
pub mod time;
pub mod token_storage;
pub mod tracker_1337;
pub mod twitch_setup;
pub mod util;
pub mod web_search;
pub mod whisper;

verus! {

} // verus!

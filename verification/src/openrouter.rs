//! The messages of the OpenRouter API.
use vstd::prelude::*;

verus! {

pub const CHAT_COMPLETIONS_URL: &'static str = "https://openrouter.ai/api/v1/chat/completions";

pub const SERVICE: &'static str = "OpenRouter API";

/// A message of a conversation.
#[derive(Debug, Clone)]
pub struct Message {
    pub role: String,
    pub content: Option<String>,
    pub tool_calls: Option<Vec<ToolCall>>,
    pub tool_call_id: Option<String>,
}

/// A call that the model asks for.
#[derive(Debug, Clone)]
pub struct ToolCall {
    pub id: String,
    pub call_type: String,
    pub function: FunctionCall,
}

/// The function of a call. The arguments are JSON text.
#[derive(Debug, Clone, PartialEq, Eq)]
pub struct FunctionCall {
    pub name: String,
    pub arguments: String,
}

} // verus!

//! The request and response shapes the gateway exposes to its callers.
//! Route handlers translate between the wire and these plain carriers; the
//! library's contracts speak of the data they hold.

use vstd::prelude::*;

verus! {

/// One inbound submit-turn request.
#[derive(Debug)]
pub struct ChatRequest {
    pub session_id: String,
    pub user_message: String,
    /// Optional model name; when absent the first registered chat model is
    /// picked.
    pub model: Option<String>,
}

/// The submit-turn answer: the bot's reply text.
#[derive(Debug)]
pub struct ChatResponse {
    pub reply: String,
}

/// One session's display history: the ordered flattened lines.
#[derive(Debug)]
pub struct ChatHistoryResponse {
    pub session_id: String,
    pub messages: Vec<String>,
}

/// The sessions with at least one stored turn.
#[derive(Debug)]
pub struct SessionsResponse {
    pub sessions: Vec<String>,
}

} // verus!

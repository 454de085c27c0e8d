//! Conversation-persistence and context-replay layer of a chat-completion
//! gateway: stores each (user message, bot reply) turn under a session
//! identifier, reconstructs ordered history on demand, and assembles the
//! message list sent to a downstream chat-completion backend.

pub mod api;
pub mod durable;
pub mod errors;
pub mod pairing;
pub mod relay;
pub mod storage;
pub mod strutil;
pub mod turn;
pub mod volatile;

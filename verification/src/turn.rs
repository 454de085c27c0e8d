//! The atomic unit of state: one user/bot exchange, timestamped.

use vstd::prelude::*;
use vstd::string::*;

verus! {

/// Mathematical model of one recorded turn.
pub ghost struct Turn {
    /// Backend-assigned surrogate key; `None` until written durably.
    pub id: Option<int>,
    pub session_id: Seq<char>,
    pub user_message: Seq<char>,
    pub bot_reply: Seq<char>,
    /// Milliseconds since the Unix epoch, assigned at persistence time.
    pub timestamp: int,
}

/// One user/bot exchange as stored and served back.
///
/// `id` is present only for records read back from the durable backend;
/// `timestamp` is in milliseconds since the Unix epoch and is assigned when
/// the turn is persisted, not supplied by the caller.
#[derive(Debug)]
pub struct ChatMessage {
    pub id: Option<i64>,
    pub session_id: String,
    pub user_message: String,
    pub bot_reply: String,
    pub timestamp: i64,
}

impl Clone for ChatMessage {
    fn clone(&self) -> (r: Self)
        ensures
            r == *self,
    {
        ChatMessage {
            id: self.id,
            session_id: self.session_id.clone(),
            user_message: self.user_message.clone(),
            bot_reply: self.bot_reply.clone(),
            timestamp: self.timestamp,
        }
    }
}

impl View for ChatMessage {
    type V = Turn;

    open spec fn view(&self) -> Turn {
        Turn {
            id: match self.id {
                Some(n) => Some(n as int),
                None => None,
            },
            session_id: self.session_id@,
            user_message: self.user_message@,
            bot_reply: self.bot_reply@,
            timestamp: self.timestamp as int,
        }
    }
}

/// The prefix a user message carries in the flattened line form.
pub open spec fn user_prefix() -> Seq<char> {
    "User: "@
}

/// The prefix a bot reply carries in the flattened line form.
pub open spec fn bot_prefix() -> Seq<char> {
    "Bot: "@
}

/// The display line for a user message.
pub open spec fn spec_user_line(msg: Seq<char>) -> Seq<char> {
    user_prefix() + msg
}

/// The display line for a bot reply.
pub open spec fn spec_bot_line(msg: Seq<char>) -> Seq<char> {
    bot_prefix() + msg
}

/// Builds the `"User: …"` display line for a user message.
pub fn user_line(msg: &str) -> (r: String)
    ensures
        r@ == spec_user_line(msg@),
{
    let mut s = String::from_str("User: ");
    s.append(msg);
    s
}

/// Builds the `"Bot: …"` display line for a bot reply.
pub fn bot_line(msg: &str) -> (r: String)
    ensures
        r@ == spec_bot_line(msg@),
{
    let mut s = String::from_str("Bot: ");
    s.append(msg);
    s
}

/// What stripping a known prefix from a line yields: the rest of the line
/// when the prefix is there, the whole line otherwise.
pub open spec fn spec_strip_prefix(line: Seq<char>, prefix: Seq<char>) -> Seq<char> {
    if prefix.len() <= line.len() && line.subrange(0, prefix.len() as int) == prefix {
        line.subrange(prefix.len() as int, line.len() as int)
    } else {
        line
    }
}

/// Removes `prefix` from the front of `line` when present; otherwise returns
/// the line unchanged.
pub fn strip_line_prefix(line: &String, prefix: &str) -> (r: String)
    ensures
        r@ == spec_strip_prefix(line@, prefix@),
{
    let plen = prefix.unicode_len();
    let llen = line.as_str().unicode_len();
    if plen <= llen {
        let head = line.as_str().substring_char(0, plen);
        if String::from_str(head) == String::from_str(prefix) {
            let rest = line.as_str().substring_char(plen, llen);
            return String::from_str(rest);
        }
    }
    line.clone()
}

} // verus!

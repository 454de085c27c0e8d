//! The relay's decision logic: resolving the target model, assembling the
//! ordered downstream message list, choosing the forwarded credential, and
//! turning the downstream answer into the user-visible reply.
//!
//! The network call itself is asynchronous I/O and lives with the caller;
//! every decision around it is a function here, from plain values to plain
//! values.

use vstd::prelude::*;
use crate::errors::ChatError;
use vstd::string::{StrSliceExecFns, StringExecFns};

verus! {

/// Mathematical model of one assembled context message.
pub ghost enum CtxMsgView {
    System(Seq<char>),
    User(Seq<char>),
    Assistant(Seq<char>),
}

/// One message of the assembled downstream context, by role.
#[derive(Debug)]
pub enum ContextMessage {
    System(String),
    User(String),
    Assistant(String),
}

impl View for ContextMessage {
    type V = CtxMsgView;

    open spec fn view(&self) -> CtxMsgView {
        match self {
            ContextMessage::System(s) => CtxMsgView::System(s@),
            ContextMessage::User(s) => CtxMsgView::User(s@),
            ContextMessage::Assistant(s) => CtxMsgView::Assistant(s@),
        }
    }
}

/// View of an assembled message vector.
pub open spec fn ctx_view(ms: Seq<ContextMessage>) -> Seq<CtxMsgView> {
    ms.map_values(|m: ContextMessage| m@)
}

/// The fixed system directive that opens every assembled context.
pub open spec fn spec_directive() -> Seq<char> {
    "You are an AI assistant. Answer as helpfully and concisely as possible."@
}

/// The fixed system directive, as sent downstream.
pub fn system_directive() -> (r: String)
    ensures
        r@ == spec_directive(),
{
    String::from_str("You are an AI assistant. Answer as helpfully and concisely as possible.")
}

/// Replayed history pairs, fully interleaved: each pair becomes a user-role
/// message followed by an assistant-role message, in order.
pub open spec fn spec_interleaved(ps: Seq<(Seq<char>, Seq<char>)>) -> Seq<CtxMsgView>
    decreases ps.len(),
{
    if ps.len() == 0 {
        Seq::empty()
    } else {
        seq![CtxMsgView::User(ps[0].0), CtxMsgView::Assistant(ps[0].1)] + spec_interleaved(
            ps.skip(1),
        )
    }
}

/// The whole assembled context: the system directive first, then the
/// replayed pairs interleaved, then the new user message last.
pub open spec fn spec_assembled(ps: Seq<(Seq<char>, Seq<char>)>, new_message: Seq<char>) -> Seq<
    CtxMsgView,
> {
    seq![CtxMsgView::System(spec_directive())] + spec_interleaved(ps) + seq![
        CtxMsgView::User(new_message),
    ]
}

/// For any history length including zero, the assembled context places the
/// system directive first and the new user message last, with the history
/// pairs fully interleaved in between — never reordered, dropped or
/// deduplicated.
pub proof fn lemma_assembled_shape(ps: Seq<(Seq<char>, Seq<char>)>, new_message: Seq<char>)
    ensures
        spec_assembled(ps, new_message).len() == 2 * ps.len() + 2,
        spec_assembled(ps, new_message)[0] == CtxMsgView::System(spec_directive()),
        spec_assembled(ps, new_message).last() == CtxMsgView::User(new_message),
        forall|k: int|
            0 <= k < ps.len() ==> spec_assembled(ps, new_message)[1 + 2 * k] == CtxMsgView::User(
                ps[k].0,
            ) && spec_assembled(ps, new_message)[2 + 2 * k] == CtxMsgView::Assistant(ps[k].1),
    decreases ps.len(),
{
    lemma_interleaved_shape(ps);
}

proof fn lemma_interleaved_shape(ps: Seq<(Seq<char>, Seq<char>)>)
    ensures
        spec_interleaved(ps).len() == 2 * ps.len(),
        forall|k: int|
            0 <= k < ps.len() ==> spec_interleaved(ps)[2 * k] == CtxMsgView::User(ps[k].0)
                && spec_interleaved(ps)[2 * k + 1] == CtxMsgView::Assistant(ps[k].1),
    decreases ps.len(),
{
    if ps.len() > 0 {
        lemma_interleaved_shape(ps.skip(1));
        assert forall|k: int|
            0 <= k < ps.len() implies spec_interleaved(ps)[2 * k] == CtxMsgView::User(ps[k].0)
            && spec_interleaved(ps)[2 * k + 1] == CtxMsgView::Assistant(ps[k].1) by {
            if k > 0 {
                assert(ps.skip(1)[k - 1] == ps[k]);
                assert(spec_interleaved(ps.skip(1))[2 * (k - 1)] == CtxMsgView::User(
                    ps.skip(1)[k - 1].0,
                ));
                assert(spec_interleaved(ps.skip(1))[2 * (k - 1) + 1] == CtxMsgView::Assistant(
                    ps.skip(1)[k - 1].1,
                ));
            }
        }
    }
}

/// Builds the exact ordered message list sent downstream: the fixed system
/// directive, the replayed `(user, bot)` pairs fully interleaved, and the
/// new inbound text as the final user-role message.
pub fn assemble_context(pairs: &Vec<(String, String)>, new_message: &str) -> (r: Vec<
    ContextMessage,
>)
    ensures
        ctx_view(r@) == spec_assembled(crate::pairing::pairs_view(pairs@), new_message@),
{
    let ghost pv = crate::pairing::pairs_view(pairs@);
    let mut r: Vec<ContextMessage> = Vec::new();
    r.push(ContextMessage::System(system_directive()));
    let mut i: usize = 0;
    proof {
        assert(pv.skip(0) =~= pv);
        assert(ctx_view(r@) + spec_interleaved(pv) =~= seq![
            CtxMsgView::System(spec_directive()),
        ] + spec_interleaved(pv));
    }
    while i < pairs.len()
        invariant
            i <= pairs@.len(),
            pv == crate::pairing::pairs_view(pairs@),
            ctx_view(r@) + spec_interleaved(pv.skip(i as int)) == seq![
                CtxMsgView::System(spec_directive()),
            ] + spec_interleaved(pv),
        decreases pairs@.len() - i,
    {
        let user = ContextMessage::User(pairs[i].0.clone());
        let assistant = ContextMessage::Assistant(pairs[i].1.clone());
        proof {
            let tail = pv.skip(i as int);
            assert(tail[0] == pv[i as int]);
            assert(pv[i as int] == (pairs@[i as int].0@, pairs@[i as int].1@));
            assert(tail.skip(1) =~= pv.skip(i as int + 1));
            assert(ctx_view(r@.push(user).push(assistant)) =~= ctx_view(r@) + seq![
                CtxMsgView::User(pv[i as int].0),
                CtxMsgView::Assistant(pv[i as int].1),
            ]);
            assert(spec_interleaved(tail) == seq![
                CtxMsgView::User(tail[0].0),
                CtxMsgView::Assistant(tail[0].1),
            ] + spec_interleaved(tail.skip(1)));
        }
        r.push(user);
        r.push(assistant);
        i = i + 1;
        proof {
            assert(ctx_view(r@) + spec_interleaved(pv.skip(i as int)) =~= seq![
                CtxMsgView::System(spec_directive()),
            ] + spec_interleaved(pv));
        }
    }
    proof {
        assert(spec_interleaved(pv.skip(i as int)) =~= Seq::<CtxMsgView>::empty());
        assert(ctx_view(r@) =~= seq![CtxMsgView::System(spec_directive())] + spec_interleaved(pv));
    }
    let new_msg = ContextMessage::User(String::from_str(new_message));
    proof {
        assert(ctx_view(r@.push(new_msg)) =~= spec_assembled(pv, new_message@));
    }
    r.push(new_msg);
    r
}

/// The model the request is answered with: the explicit request field when
/// present, else the first registered chat model, else no model at all.
pub fn resolve_model(explicit: Option<String>, registered: &Vec<String>) -> (r: Result<
    String,
    ChatError,
>)
    ensures
        match explicit {
            Some(m) => r == Ok::<String, ChatError>(m),
            None => {
                if registered@.len() > 0 {
                    r matches Ok(picked) && picked@ == registered@[0]@
                } else {
                    r == Err::<String, ChatError>(ChatError::NoModelAvailable)
                }
            },
        },
{
    match explicit {
        Some(m) => Ok(m),
        None => {
            if registered.len() > 0 {
                Ok(registered[0].clone())
            } else {
                Err(ChatError::NoModelAvailable)
            }
        },
    }
}

/// One downstream chat endpoint, as handed back by the external routing
/// collaborator: its base URL and, when configured, its own API key.
#[derive(Debug)]
pub struct ChatEndpoint {
    pub url: String,
    pub api_key: Option<String>,
}

/// Demands an acquired endpoint: the routing collaborator either handed one
/// back or the request fails with `NoBackendAvailable`.
pub fn require_backend(found: Option<ChatEndpoint>) -> (r: Result<ChatEndpoint, ChatError>)
    ensures
        match found {
            Some(ep) => r matches Ok(got) && got == ep,
            None => r == Err::<ChatEndpoint, ChatError>(ChatError::NoBackendAvailable),
        },
{
    match found {
        Some(ep) => Ok(ep),
        None => Err(ChatError::NoBackendAvailable),
    }
}

/// A base URL with every trailing `/` removed.
pub open spec fn spec_trim_slashes(s: Seq<char>) -> Seq<char>
    decreases s.len(),
{
    if s.len() > 0 && s.last() == '/' {
        spec_trim_slashes(s.drop_last())
    } else {
        s
    }
}

proof fn lemma_trim_slashes_take(s: Seq<char>, end: int)
    requires
        0 <= end <= s.len(),
        forall|j: int| end <= j < s.len() ==> s[j] == '/',
    ensures
        spec_trim_slashes(s) == spec_trim_slashes(s.take(end)),
    decreases s.len() - end,
{
    if end < s.len() {
        assert(s.last() == '/');
        assert(s.drop_last() =~= s.take(s.len() - 1));
        lemma_trim_slashes_take(s.take(s.len() - 1), end);
        assert(s.take(s.len() - 1).take(end) =~= s.take(end));
    } else {
        assert(s.take(end) =~= s);
    }
}

/// The completions URL of an endpoint: its base with trailing slashes
/// trimmed, then the chat-completions path.
pub fn endpoint_url(base: &str) -> (r: String)
    ensures
        r@ == spec_trim_slashes(base@) + "/chat/completions"@,
{
    let len = base.unicode_len();
    let mut end: usize = len;
    while end > 0 && base.get_char(end - 1) == '/'
        invariant
            end <= len,
            len == base@.len(),
            forall|j: int| end <= j < base@.len() ==> base@[j] == '/',
        decreases end,
    {
        end = end - 1;
    }
    proof {
        lemma_trim_slashes_take(base@, end as int);
        if end > 0 {
            assert(base@.take(end as int).last() == base@[end - 1]);
            assert(spec_trim_slashes(base@.take(end as int)) == base@.take(end as int));
        } else {
            assert(base@.take(0) =~= Seq::<char>::empty());
            assert(spec_trim_slashes(base@.take(0)) == base@.take(0));
        }
    }
    let head = base.substring_char(0, end);
    let mut url = String::from_str(head);
    url.append("/chat/completions");
    url
}

/// The credential forwarded downstream: the endpoint's own non-empty API
/// key takes precedence; an endpoint configured with an empty key sends
/// none; only an endpoint with no key at all falls back to the caller's
/// inbound authorization value.
pub open spec fn spec_choose_auth(key: Option<Seq<char>>, inbound: Option<Seq<char>>) -> Option<
    Seq<char>,
> {
    match key {
        Some(k) => {
            if k.len() > 0 {
                Some(k)
            } else {
                None
            }
        },
        None => inbound,
    }
}

/// Picks the credential forwarded with the downstream call.
pub fn choose_auth(api_key: &Option<String>, inbound: &Option<String>) -> (r: Option<String>)
    ensures
        r.deep_view() == spec_choose_auth(api_key.deep_view(), inbound.deep_view()),
{
    match api_key {
        Some(k) => {
            if k.as_str().unicode_len() > 0 {
                Some(k.clone())
            } else {
                None
            }
        },
        None => match inbound {
            Some(h) => Some(h.clone()),
            None => None,
        },
    }
}

/// What the downstream reply body yields as the first choice's message
/// content: `Some` exactly when the body is JSON carrying
/// `choices[0].message.content` as a string. A function of the body text
/// alone.
pub uninterp spec fn choice_content_of(body: Seq<char>) -> Option<Seq<char>>;

/// Relies on serde_json: parsing the reply body and reading
/// `choices[0].message.content` depends on the body text alone.
#[verifier::external_body]
fn first_choice_content(body: &str) -> (r: Option<String>)
    ensures
        r.deep_view() == choice_content_of(body@),
{
    let value: serde_json::Value = match serde_json::from_str(body) {
        Ok(v) => v,
        Err(_) => return None,
    };
    value
        .get("choices")
        .and_then(|c| c.get(0))
        .and_then(|c0| c0.get("message"))
        .and_then(|m| m.get("content"))
        .and_then(|c| c.as_str())
        .map(|s| s.to_string())
}

/// The user-visible reply for an extracted content: the content itself, or
/// the literal placeholder when the reply shape carried none — the call is
/// never aborted solely because the reply shape is incomplete.
pub open spec fn spec_extract_reply(content: Option<Seq<char>>) -> Seq<char> {
    match content {
        Some(c) => c,
        None => "(no content)"@,
    }
}

/// Substitutes the placeholder reply when no content was extracted.
pub fn extract_reply(content: Option<String>) -> (r: String)
    ensures
        r@ == spec_extract_reply(content.deep_view()),
{
    match content {
        Some(c) => c,
        None => String::from_str("(no content)"),
    }
}

/// Turns the downstream HTTP answer into the request's outcome: a
/// non-success status fails with `DownstreamError` carrying that status and
/// the body verbatim; a success yields the first choice's message content,
/// or the placeholder when the body carries none.
pub fn finish_response(status: u16, body: &str) -> (r: Result<String, ChatError>)
    ensures
        match r {
            Ok(reply) => 200 <= status < 300 && reply@ == spec_extract_reply(
                choice_content_of(body@),
            ),
            Err(e) => !(200 <= status < 300) && match e {
                ChatError::DownstreamError { status: s, body: b } => s == status && b@ == body@,
                _ => false,
            },
        },
{
    if !(200 <= status && status < 300) {
        return Err(ChatError::DownstreamError { status, body: String::from_str(body) });
    }
    let content = first_choice_content(body);
    Ok(extract_reply(content))
}

} // verus!

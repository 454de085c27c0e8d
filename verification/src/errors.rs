//! Failure taxonomy of the gateway.

use vstd::prelude::*;

verus! {

/// Every way a gateway operation can fail.
///
/// - `StorageInit`: a durable backend could not be opened or created; fatal
///   to construction of the conversation feature, never per-request.
/// - `StorageIo`: a single durable-storage operation failed; recoverable per
///   call.
/// - `NoModelAvailable`: no explicit model was requested and no chat model is
///   registered.
/// - `NoBackendAvailable`: no downstream chat endpoint could be acquired.
/// - `DownstreamError`: the downstream backend answered with a non-success
///   HTTP status; carries that status and the response body verbatim.
#[derive(Debug, Clone, PartialEq, Eq)]
pub enum ChatError {
    StorageInit,
    StorageIo,
    NoModelAvailable,
    NoBackendAvailable,
    DownstreamError { status: u16, body: String },
}

} // verus!

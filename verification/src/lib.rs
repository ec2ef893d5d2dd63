//! A verified streaming-completion pipeline for a chat endpoint that answers
//! over server-sent events (SSE).
//!
//! The crate models one in-flight request: building the JSON request body from
//! an ordered conversation, reassembling discrete SSE event payloads out of an
//! arbitrarily fragmented byte stream, decoding each payload into incremental
//! text deltas, and driving the start/chunk/end lifecycle of a consumer sink,
//! with distinct handling for cancellation and for transport failure.

pub mod msg;
pub mod sse;
pub mod text;
pub mod json;
pub mod chunk;
pub mod request;
pub mod session;
pub mod history;
pub mod config;

use vstd::prelude::*;

verus! {

/// The endpoint used when no other URL has been configured.
pub const DEFAULT_API_URL: &'static str = "https://api.deepseek.com/v1/chat/completions";

} // verus!

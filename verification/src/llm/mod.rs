//! Provider-agnostic LLM plumbing: the error type, the scripted mock, the
//! OpenAI-compatible client's configuration and retry decisions, and the
//! response cache keys.

pub mod error;
pub mod mock;
pub mod openai;
pub mod cache;
pub mod concurrency;

//! Typed errors for LLM provider interactions.
//!
//! One error type covers the failure modes of any provider client: network
//! failures, timeouts, rate limits, non-2xx responses and response parsing.

use vstd::prelude::*;

use crate::text::{decimal, decimal_chars, push_str, string_of};

verus! {

broadcast use vstd::string::group_string_axioms;

/// Errors returned by LLM clients.
#[derive(Debug)]
pub enum LlmError {
    /// Network or transport failure (DNS, connection refused, TLS, ...).
    Network {
        /// Human-readable description of the transport failure.
        message: String,
    },
    /// The request timed out before the provider responded.
    Timeout,
    /// The provider returned a 429 rate-limit response.
    RateLimit {
        /// Advised wait before retrying, if the provider supplied one.
        retry_after: Option<std::time::Duration>,
    },
    /// The provider returned a non-2xx status code (other than 429).
    Provider {
        /// HTTP status code returned by the provider.
        status: u16,
        /// Response body (truncated by real clients).
        body: String,
    },
    /// The provider response could not be parsed into completion text.
    Parse {
        /// Description of why parsing failed.
        message: String,
    },
}

/// The error message of `e` (what `Display` prints).
pub open spec fn error_text(e: LlmError) -> Seq<char> {
    match e {
        LlmError::Network { message } => "network error: "@ + message@,
        LlmError::Timeout => "request timed out"@,
        LlmError::RateLimit { .. } => "rate limited"@,
        LlmError::Provider { status, body } => "provider error: status "@ + decimal(status as nat)
            + ": "@ + body@,
        LlmError::Parse { message } => "failed to parse provider response: "@ + message@,
    }
}

impl LlmError {
    /// `Network` with the given message.
    pub fn network(message: &str) -> (r: LlmError)
        ensures
            (r matches LlmError::Network { message: m } && m@ == message@),
    {
        LlmError::Network { message: message.to_owned() }
    }

    /// `Parse` with the given message.
    pub fn parse(message: &str) -> (r: LlmError)
        ensures
            (r matches LlmError::Parse { message: m } && m@ == message@),
    {
        LlmError::Parse { message: message.to_owned() }
    }

    /// The rate-limit `retry_after` hint; `None` for every other variant.
    pub fn retry_after(&self) -> (r: Option<std::time::Duration>)
        ensures
            r == match *self {
                LlmError::RateLimit { retry_after } => retry_after,
                _ => None,
            },
    {
        match self {
            LlmError::RateLimit { retry_after } => *retry_after,
            _ => None,
        }
    }

    /// The error message (the rate-limit message does not include the hint).
    pub fn to_string(&self) -> (r: String)
        ensures
            r@ == error_text(*self),
    {
        let mut out: Vec<char> = Vec::new();
        match self {
            LlmError::Network { message } => {
                push_str(&mut out, "network error: ");
                push_str(&mut out, message.as_str());
            },
            LlmError::Timeout => {
                push_str(&mut out, "request timed out");
            },
            LlmError::RateLimit { .. } => {
                push_str(&mut out, "rate limited");
            },
            LlmError::Provider { status, body } => {
                push_str(&mut out, "provider error: status ");
                crate::text::push_all(&mut out, &decimal_chars(*status as u64));
                push_str(&mut out, ": ");
                push_str(&mut out, body.as_str());
            },
            LlmError::Parse { message } => {
                push_str(&mut out, "failed to parse provider response: ");
                push_str(&mut out, message.as_str());
            },
        }
        string_of(&out)
    }

    /// A copy of the error.
    pub fn duplicate(&self) -> (r: LlmError)
        ensures
            r == *self,
    {
        match self {
            LlmError::Network { message } => LlmError::Network { message: message.clone() },
            LlmError::Timeout => LlmError::Timeout,
            LlmError::RateLimit { retry_after } => LlmError::RateLimit { retry_after: *retry_after },
            LlmError::Provider { status, body } => LlmError::Provider {
                status: *status,
                body: body.clone(),
            },
            LlmError::Parse { message } => LlmError::Parse { message: message.clone() },
        }
    }
}

} // verus!

use decon::llm::error::LlmError;
use std::time::Duration;

#[test]
fn network_display_is_sensible() {
    let e = LlmError::network("connection refused");
    assert_eq!(e.to_string(), "network error: connection refused");
}

#[test]
fn timeout_display_is_sensible() {
    let e = LlmError::Timeout;
    assert_eq!(e.to_string(), "request timed out");
}

#[test]
fn rate_limit_display_without_retry_after() {
    let e = LlmError::RateLimit { retry_after: None };
    assert_eq!(e.to_string(), "rate limited");
}

#[test]
fn rate_limit_display_with_retry_after() {
    let e = LlmError::RateLimit {
        retry_after: Some(Duration::from_millis(500)),
    };
    // Display stays constant; retry_after is read as a field.
    assert_eq!(e.to_string(), "rate limited");
    assert_eq!(
        e.retry_after(),
        Some(Duration::from_millis(500)),
        "retry_after should be accessible as a field",
    );
}

#[test]
fn provider_display_is_sensible() {
    let e = LlmError::Provider {
        status: 503,
        body: "upstream down".to_string(),
    };
    assert_eq!(e.to_string(), "provider error: status 503: upstream down");
}

#[test]
fn parse_display_is_sensible() {
    let e = LlmError::parse("missing choices field");
    assert_eq!(
        e.to_string(),
        "failed to parse provider response: missing choices field",
    );
}


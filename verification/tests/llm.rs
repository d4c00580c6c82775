use std::time::Duration;

use decon::llm::cache::{cache_key, CacheError, CacheKeyInput, DiskCache};
use decon::llm::concurrency::reserve_batch;
use decon::llm::error::LlmError;
use decon::llm::mock::MockClient;
use decon::llm::openai::{
    classify_status, next_action, AttemptAction, AttemptOutcome, OpenAiClientConfig, StatusClass,
};
use decon::progress::ProgressTracker;

// ---- mock client -------------------------------------------------------

#[test]
fn returns_canned_response() {
    let mut client = MockClient::new("hello world");
    let out = client.complete_next().unwrap();
    assert_eq!(out, "hello world");
}

#[test]
fn repeats_canned_response_on_multiple_calls() {
    let mut client = MockClient::new("same");
    assert_eq!(client.complete_next().unwrap(), "same");
    assert_eq!(client.complete_next().unwrap(), "same");
    assert_eq!(client.complete_next().unwrap(), "same");
    assert_eq!(client.call_count(), 3);
}

#[test]
fn returns_sequence_of_responses() {
    let mut client = MockClient::with_responses(vec![
        "first".to_string(),
        "second".to_string(),
        "third".to_string(),
    ])
    .unwrap();
    assert_eq!(client.complete_next().unwrap(), "first");
    assert_eq!(client.complete_next().unwrap(), "second");
    assert_eq!(client.complete_next().unwrap(), "third");
    assert_eq!(client.complete_next().unwrap(), "third");
    assert_eq!(client.call_count(), 4);
}

#[test]
fn with_responses_empty_returns_error() {
    let err = MockClient::with_responses(vec![]).unwrap_err();
    assert!(matches!(err, LlmError::Parse { .. }), "got: {err:?}");
}

#[test]
fn fails_on_nth_call_with_configured_error() {
    let mut client = MockClient::new("ok").fail_on(1, LlmError::Timeout);
    assert_eq!(client.complete_next().unwrap(), "ok");
    let err = client.complete_next().unwrap_err();
    assert!(matches!(err, LlmError::Timeout), "got: {err:?}");
    assert_eq!(client.complete_next().unwrap(), "ok");
    assert_eq!(client.call_count(), 3);
}

#[test]
fn fails_on_first_call() {
    let mut client = MockClient::new("ok").fail_on(0, LlmError::network("boom"));
    let err = client.complete_next().unwrap_err();
    assert!(matches!(err, LlmError::Network { .. }), "got: {err:?}");
    assert_eq!(client.call_count(), 1);
}

#[test]
fn fail_on_with_rate_limit_preserves_retry_after() {
    let mut client = MockClient::new("ok").fail_on(
        0,
        LlmError::RateLimit {
            retry_after: Some(Duration::from_secs(2)),
        },
    );
    match client.complete_next().unwrap_err() {
        LlmError::RateLimit { retry_after } => {
            assert_eq!(retry_after, Some(Duration::from_secs(2)));
        }
        other => panic!("expected RateLimit, got {other:?}"),
    }
}

#[test]
fn fail_on_with_provider_error_preserves_status_and_body() {
    let mut client = MockClient::new("ok").fail_on(
        0,
        LlmError::Provider {
            status: 502,
            body: "bad gateway".to_string(),
        },
    );
    match client.complete_next().unwrap_err() {
        LlmError::Provider { status, body } => {
            assert_eq!(status, 502);
            assert_eq!(body, "bad gateway");
        }
        other => panic!("expected Provider, got {other:?}"),
    }
}

#[test]
fn call_count_starts_at_zero() {
    let client = MockClient::new("ok");
    assert_eq!(client.call_count(), 0);
}

#[test]
fn sequence_with_failure_interleaved() {
    let mut client =
        MockClient::with_responses(vec!["a".to_string(), "b".to_string(), "c".to_string()])
            .unwrap()
            .fail_on(1, LlmError::parse("bad json"));
    assert_eq!(client.complete_next().unwrap(), "a");
    let err = client.complete_next().unwrap_err();
    assert!(matches!(err, LlmError::Parse { .. }), "got: {err:?}");
    assert_eq!(client.complete_next().unwrap(), "c");
    assert_eq!(client.call_count(), 3);
}

#[test]
fn mock_last_response_repeats_forever() {
    let mut client =
        MockClient::with_responses(vec!["x".to_string(), "y".to_string()]).unwrap();
    assert_eq!(client.complete_next().unwrap(), "x");
    for _ in 0..10 {
        assert_eq!(client.complete_next().unwrap(), "y");
    }
    assert_eq!(client.call_count(), 11);
}

// ---- OpenAI-compatible configuration and retry decisions ---------------

#[test]
fn redact_key_shows_prefix_only() {
    let config = OpenAiClientConfig::new("https://x", "sk-secret-abcdef", "m");
    assert_eq!(config.redact_key(), "sk-s...");
}

#[test]
fn redact_key_short_key_kept_whole() {
    let config = OpenAiClientConfig::new("https://x", "abc", "m");
    assert_eq!(config.redact_key(), "abc...");
}

#[test]
fn from_env_defaults_when_set() {
    let cfg = OpenAiClientConfig::from_env_values(Some("sk-env-test"), None, None, None).unwrap();
    assert_eq!(cfg.api_key, "sk-env-test");
    assert_eq!(cfg.base_url, "https://api.deepseek.com/v1");
    assert_eq!(cfg.model, "deepseek-chat");
    assert_eq!(cfg.provider_name, "deepseek");
    assert_eq!(cfg.timeout, Duration::from_secs(120));
    assert_eq!(cfg.max_retries, 3);
}

#[test]
fn from_env_uses_deepseek_fallback() {
    let cfg = OpenAiClientConfig::from_env_values(None, Some("sk-fallback"), None, None).unwrap();
    assert_eq!(cfg.api_key, "sk-fallback");
}

#[test]
fn from_env_prefers_decon_key() {
    let cfg =
        OpenAiClientConfig::from_env_values(Some("sk-a"), Some("sk-b"), None, Some("m2")).unwrap();
    assert_eq!(cfg.api_key, "sk-a");
    assert_eq!(cfg.model, "m2");
}

#[test]
fn from_env_openai_provider_name() {
    let cfg = OpenAiClientConfig::from_env_values(
        Some("sk-x"),
        None,
        Some("https://api.openai.com/v1"),
        None,
    )
    .unwrap();
    assert_eq!(cfg.provider_name, "openai");
}

#[test]
fn from_env_errors_when_no_key() {
    let err = OpenAiClientConfig::from_env_values(None, None, None, None).unwrap_err();
    assert!(matches!(err, LlmError::Provider { .. }), "got: {err:?}");
    match err {
        LlmError::Provider { status, body } => {
            assert_eq!(status, 0);
            assert_eq!(body, "DECON_LLM_API_KEY (or DEEPSEEK_API_KEY) not set");
        }
        _ => unreachable!(),
    }
}

#[test]
fn backoff_doubles_and_caps() {
    let config = OpenAiClientConfig::new("https://x", "k", "m").with_max_retries(5);
    assert_eq!(config.backoff_for(0), Duration::from_secs(1));
    assert_eq!(config.backoff_for(1), Duration::from_secs(2));
    assert_eq!(config.backoff_for(2), Duration::from_secs(4));
    assert_eq!(config.backoff_for(6), Duration::from_secs(60));
}

#[test]
fn backoff_never_exceeds_cap() {
    let config = OpenAiClientConfig::new("https://x", "k", "m");
    for attempt in 0..200u32 {
        assert!(config.backoff_for(attempt) <= Duration::from_secs(60));
    }
    assert_eq!(config.backoff_for(5), Duration::from_secs(32));
    assert_eq!(config.backoff_for(u32::MAX), Duration::from_secs(60));
}

fn retryable(c: StatusClass) -> bool {
    matches!(c, StatusClass::RateLimited | StatusClass::ServerError)
}

#[test]
fn classify_status_correct() {
    assert!(retryable(classify_status(429)));
    assert!(retryable(classify_status(500)));
    assert!(retryable(classify_status(502)));
    assert!(!retryable(classify_status(400)));
    assert!(!retryable(classify_status(401)));
    assert!(!retryable(classify_status(403)));
    assert!(!retryable(classify_status(404)));
    assert!(!retryable(classify_status(200)));
    assert!(matches!(classify_status(204), StatusClass::Success));
    assert!(matches!(classify_status(600), StatusClass::ClientError));
}

#[test]
fn completions_url_trims_trailing_slashes() {
    let c = OpenAiClientConfig::new("https://api.example.com/v1//", "k", "m");
    assert_eq!(c.completions_url(), "https://api.example.com/v1/chat/completions");
    let d = OpenAiClientConfig::new("http://localhost:8080", "k", "m");
    assert_eq!(d.completions_url(), "http://localhost:8080/chat/completions");
}

fn cfg() -> OpenAiClientConfig {
    OpenAiClientConfig::new("https://x", "sk-test-key-1234", "m").with_max_retries(3)
}

#[test]
fn next_action_success_returns_content() {
    match next_action(
        &cfg(),
        0,
        AttemptOutcome::Completed {
            content: Some("hi".to_string()),
        },
    ) {
        AttemptAction::Finish(Ok(s)) => assert_eq!(s, "hi"),
        other => panic!("got {other:?}"),
    }
}

#[test]
fn next_action_missing_content_is_parse_error() {
    match next_action(&cfg(), 0, AttemptOutcome::Completed { content: None }) {
        AttemptAction::Finish(Err(LlmError::Parse { message })) => {
            assert_eq!(message, "response had no choices[0].message.content")
        }
        other => panic!("got {other:?}"),
    }
}

#[test]
fn next_action_server_error_retries_then_fails() {
    let c = cfg();
    match next_action(
        &c,
        1,
        AttemptOutcome::Status {
            status: 500,
            body: "boom".to_string(),
        },
    ) {
        AttemptAction::Retry { wait } => assert_eq!(wait, Duration::from_secs(2)),
        other => panic!("got {other:?}"),
    }
    match next_action(
        &c,
        3,
        AttemptOutcome::Status {
            status: 500,
            body: "boom".to_string(),
        },
    ) {
        AttemptAction::Finish(Err(LlmError::Provider { status, body })) => {
            assert_eq!(status, 500);
            assert_eq!(body, "boom");
        }
        other => panic!("got {other:?}"),
    }
}

#[test]
fn next_action_client_error_is_not_retried() {
    match next_action(
        &cfg(),
        0,
        AttemptOutcome::Status {
            status: 401,
            body: "unauthorized".to_string(),
        },
    ) {
        AttemptAction::Finish(Err(LlmError::Provider { status, body })) => {
            assert_eq!(status, 401);
            assert_eq!(body, "unauthorized");
        }
        other => panic!("got {other:?}"),
    }
}

#[test]
fn next_action_truncates_long_bodies() {
    let long = "x".repeat(600);
    match next_action(
        &cfg(),
        0,
        AttemptOutcome::Status {
            status: 400,
            body: long,
        },
    ) {
        AttemptAction::Finish(Err(LlmError::Provider { body, .. })) => {
            assert_eq!(body, format!("{}...(truncated)", "x".repeat(512)));
        }
        other => panic!("got {other:?}"),
    }
}

#[test]
fn next_action_rate_limit_uses_retry_after() {
    match next_action(
        &cfg(),
        0,
        AttemptOutcome::RateLimited {
            retry_after: Some(Duration::from_secs(7)),
        },
    ) {
        AttemptAction::Retry { wait } => assert_eq!(wait, Duration::from_secs(7)),
        other => panic!("got {other:?}"),
    }
    match next_action(&cfg(), 2, AttemptOutcome::RateLimited { retry_after: None }) {
        AttemptAction::Retry { wait } => assert_eq!(wait, Duration::from_secs(4)),
        other => panic!("got {other:?}"),
    }
    match next_action(&cfg(), 3, AttemptOutcome::RateLimited { retry_after: None }) {
        AttemptAction::Finish(Err(LlmError::RateLimit { retry_after })) => {
            assert_eq!(retry_after, None)
        }
        other => panic!("got {other:?}"),
    }
}

#[test]
fn next_action_network_error_redacts_key() {
    match next_action(
        &cfg(),
        3,
        AttemptOutcome::NetworkError {
            detail: "refused".to_string(),
        },
    ) {
        AttemptAction::Finish(Err(LlmError::Network { message })) => {
            assert_eq!(message, "request failed (key sk-t...): refused");
        }
        other => panic!("got {other:?}"),
    }
}

#[test]
fn next_action_timeout_and_parse_failures_finish() {
    assert!(matches!(
        next_action(&cfg(), 0, AttemptOutcome::TimedOut),
        AttemptAction::Finish(Err(LlmError::Timeout))
    ));
    match next_action(
        &cfg(),
        0,
        AttemptOutcome::InvalidJson {
            detail: "eof".to_string(),
        },
    ) {
        AttemptAction::Finish(Err(LlmError::Parse { message })) => {
            assert_eq!(message, "invalid response JSON: eof")
        }
        other => panic!("got {other:?}"),
    }
    match next_action(
        &cfg(),
        0,
        AttemptOutcome::BuilderError {
            detail: "bad url".to_string(),
        },
    ) {
        AttemptAction::Finish(Err(LlmError::Network { message })) => {
            assert_eq!(message, "request builder error: bad url")
        }
        other => panic!("got {other:?}"),
    }
    match next_action(
        &cfg(),
        0,
        AttemptOutcome::BodyUnreadable {
            detail: "reset".to_string(),
        },
    ) {
        AttemptAction::Finish(Err(LlmError::Parse { message })) => {
            assert_eq!(message, "failed to read response body: reset")
        }
        other => panic!("got {other:?}"),
    }
}

// ---- response cache keys ------------------------------------------------

#[test]
fn keys_stable_and_sensitive() {
    let a = CacheKeyInput {
        prompt: "hello",
        model: "m1",
        provider: "p1",
        extras: None,
    };
    let b = CacheKeyInput {
        prompt: "hello",
        model: "m1",
        provider: "p1",
        extras: None,
    };
    assert_eq!(cache_key(&a).unwrap(), cache_key(&b).unwrap());
    assert!(cache_key(&a).unwrap().starts_with("sha256:"));
    let c = CacheKeyInput {
        prompt: "hello!",
        model: "m1",
        provider: "p1",
        extras: None,
    };
    assert_ne!(cache_key(&a).unwrap(), cache_key(&c).unwrap());
    let d = CacheKeyInput {
        prompt: "hello",
        model: "m2",
        provider: "p1",
        extras: None,
    };
    assert_ne!(cache_key(&a).unwrap(), cache_key(&d).unwrap());
}

#[test]
fn extras_change_key() {
    let a = CacheKeyInput {
        prompt: "x",
        model: "m",
        provider: "p",
        extras: None,
    };
    let b = CacheKeyInput {
        prompt: "x",
        model: "m",
        provider: "p",
        extras: Some("tools=v1"),
    };
    assert_ne!(cache_key(&a).unwrap(), cache_key(&b).unwrap());
}

#[test]
fn cache_key_is_sha256_of_sorted_json() {
    // SHA-256 of {"extras":null,"model":"m","prompt":"x","provider":"p"}
    let a = CacheKeyInput {
        prompt: "x",
        model: "m",
        provider: "p",
        extras: None,
    };
    let k = cache_key(&a).unwrap();
    assert_eq!(k.len(), 7 + 64);
    assert!(k[7..].chars().all(|c| c.is_ascii_hexdigit() && !c.is_ascii_uppercase()));
    assert_eq!(
        k,
        "sha256:d7e42aa41b4d0e347866ef4023c7ac8fc82bbfda7997a2780dbfe9824bdce97c"
    );
    // JSON escaping of quotes and newlines is part of the hashed text.
    let b = CacheKeyInput {
        prompt: "x\"\n",
        model: "m",
        provider: "p",
        extras: Some("tools=v1"),
    };
    assert_eq!(
        cache_key(&b).unwrap(),
        "sha256:652ad8cd3a8318dae4a709118b3d3638e6b550f83d16bc7aa6ed3e04bf1e9b2c"
    );
}

#[test]
fn cache_entry_file_name_strips_prefix() {
    let cache = DiskCache::new("/tmp/cache");
    assert_eq!(cache.root, "/tmp/cache");
    assert_eq!(cache.entry_file_name("sha256:abc"), "abc.json");
    assert_eq!(cache.entry_file_name("plain"), "plain.json");
}

#[test]
fn cache_error_messages() {
    assert_eq!(
        CacheError::Key("bad".to_string()).to_string(),
        "cache key serialization failed: bad"
    );
    assert_eq!(
        CacheError::Io {
            path: "/x".to_string(),
            message: "denied".to_string(),
        }
        .to_string(),
        "cache I/O at /x: denied"
    );
}

// ---- budget reservation for batches -------------------------------------

#[test]
fn batch_budget_exceeded_reserves_nothing() {
    let mut p = ProgressTracker::new(2);
    assert!(reserve_batch(&mut p, 3).is_err());
    assert_eq!(p.snapshot().llm_calls_used, 0);
}

#[test]
fn batch_budget_exact_fit_succeeds() {
    let mut p = ProgressTracker::new(3);
    assert!(reserve_batch(&mut p, 3).is_ok());
    assert_eq!(p.snapshot().llm_calls_used, 3);
    assert!(reserve_batch(&mut p, 0).is_ok());
    assert!(reserve_batch(&mut p, 1).is_err());
}

#[test]
fn redact_key_counts_characters() {
    let config = OpenAiClientConfig::new("https://x", "ééééé", "m");
    assert_eq!(config.redact_key(), "éééé...");
    let short = OpenAiClientConfig::new("https://x", "ééé", "m");
    assert_eq!(short.redact_key(), "ééé...");
}

#[test]
fn reserve_past_u32_max_is_refused() {
    let mut p = ProgressTracker::new(u32::MAX);
    p.record_llm_call().unwrap();
    assert!(p.reserve_llm_calls(u32::MAX).is_err());
    assert_eq!(p.snapshot().llm_calls_used, 1);
    assert!(reserve_batch(&mut p, usize::MAX).is_err());
    assert!(p.reserve_llm_calls(u32::MAX - 1).is_ok());
    assert_eq!(p.snapshot().llm_calls_remaining, 0);
}

//! OpenAI-compatible chat-completions client: configuration, the key
//! redaction and body truncation used in error messages, backoff, and the
//! decision taken after each HTTP attempt.
//!
//! The HTTP exchange itself, sleeping between attempts and the disk cache
//! are done by the caller, which feeds each attempt's outcome to
//! `next_action` and performs the action it returns.

use vstd::prelude::*;

use crate::llm::error::LlmError;
use crate::text::{chars_of, push_all, push_str, slice_chars, string_of};

verus! {

broadcast use vstd::string::group_string_axioms;

use std::time::Duration;

// ---------------------------------------------------------------------------
// durations
// ---------------------------------------------------------------------------

/// What `Duration::as_nanos` returns.
pub uninterp spec fn duration_nanos(d: Duration) -> nat;

/// Nanoseconds in `Duration::MAX` (`u64::MAX` seconds and 999 999 999 ns).
pub open spec fn max_nanos() -> nat {
    (u64::MAX as nat) * 1_000_000_000 + 999_999_999
}

/// Trusted: `std::time::Duration::as_nanos` returns the duration's length in
/// nanoseconds, which is at most that of `Duration::MAX`.
#[verifier::external_body]
fn nanos_of(d: Duration) -> (r: u128)
    ensures
        r == duration_nanos(d),
        r <= max_nanos(),
{
    d.as_nanos()
}

/// Trusted: `std::time::Duration::from_secs(s)` is `s` whole seconds, that is
/// `s * 10^9` nanoseconds.
#[verifier::external_body]
fn duration_from_secs(s: u64) -> (d: Duration)
    ensures
        duration_nanos(d) == s * 1_000_000_000,
{
    Duration::from_secs(s)
}

/// Trusted: `std::time::Duration::saturating_mul(2)` doubles the duration, or
/// gives `Duration::MAX` when the double does not fit.
#[verifier::external_body]
fn double_saturating(d: Duration) -> (r: Duration)
    ensures
        duration_nanos(r) == if duration_nanos(d) * 2 <= max_nanos() {
            duration_nanos(d) * 2
        } else {
            max_nanos()
        },
{
    d.saturating_mul(2)
}

/// Upper bound on a single backoff wait: 60 seconds.
pub open spec fn backoff_cap() -> nat {
    60_000_000_000
}

/// Backoff before retry `attempt` (zero-based), in nanoseconds: the
/// initial wait doubled once per earlier attempt (saturating), capped at
/// 60 seconds.
pub open spec fn backoff_nanos(initial: nat, attempt: nat) -> nat
    decreases attempt,
{
    if attempt == 0 {
        if initial < backoff_cap() {
            initial
        } else {
            backoff_cap()
        }
    } else {
        let d = if initial * 2 <= max_nanos() {
            initial * 2
        } else {
            max_nanos()
        };
        if d >= backoff_cap() {
            backoff_cap()
        } else {
            backoff_nanos(d, (attempt - 1) as nat)
        }
    }
}

// ---------------------------------------------------------------------------
// configuration
// ---------------------------------------------------------------------------

/// Configuration for an OpenAI-compatible client.
#[derive(Debug)]
pub struct OpenAiClientConfig {
    /// API base URL (e.g. `https://api.deepseek.com/v1`).
    pub base_url: String,
    /// Bearer API key.
    pub api_key: String,
    /// Model id.
    pub model: String,
    /// Per-request timeout.
    pub timeout: Duration,
    /// Retries after the first attempt.
    pub max_retries: u32,
    /// Backoff before the first retry.
    pub initial_backoff: Duration,
    /// Provider name used in cache keys.
    pub provider_name: String,
}

/// The first four characters of a key (all of it when shorter).
pub open spec fn key_prefix(k: Seq<char>) -> Seq<char> {
    if k.len() <= 4 {
        k
    } else {
        k.take(4)
    }
}

fn key_prefix_chars(k: &str) -> (r: Vec<char>)
    ensures
        r@ == key_prefix(k@),
{
    let v = chars_of(k);
    if v.len() <= 4 {
        v
    } else {
        let r = slice_chars(&v, 0, 4);
        assert(r@ =~= k@.take(4));
        r
    }
}

impl OpenAiClientConfig {
    /// Configuration with a 120 s timeout, 3 retries, a 1 s initial backoff
    /// and the `deepseek` provider name.
    pub fn new(base_url: &str, api_key: &str, model: &str) -> (c: Self)
        ensures
            c.base_url@ == base_url@,
            c.api_key@ == api_key@,
            c.model@ == model@,
            duration_nanos(c.timeout) == 120_000_000_000,
            c.max_retries == 3,
            duration_nanos(c.initial_backoff) == 1_000_000_000,
            c.provider_name@ == "deepseek"@,
    {
        OpenAiClientConfig {
            base_url: base_url.to_owned(),
            api_key: api_key.to_owned(),
            model: model.to_owned(),
            timeout: duration_from_secs(120),
            max_retries: 3,
            initial_backoff: duration_from_secs(1),
            provider_name: "deepseek".to_owned(),
        }
    }

    /// Configuration from environment values: the API key
    /// (`DECON_LLM_API_KEY`, else `DEEPSEEK_API_KEY`) is required; the base
    /// URL and model fall back to DeepSeek's; the provider name is `openai`
    /// when the base URL mentions `openai`, else `deepseek`.
    pub fn from_env_values(
        decon_key: Option<&str>,
        deepseek_key: Option<&str>,
        base_url: Option<&str>,
        model: Option<&str>,
    ) -> (r: Result<Self, LlmError>)
        ensures
            match r {
                Ok(c) => {
                    &&& (decon_key is Some || deepseek_key is Some)
                    &&& c.api_key@ == match decon_key {
                        Some(k) => k@,
                        None => deepseek_key.unwrap()@,
                    }
                    &&& c.base_url@ == match base_url {
                        Some(b) => b@,
                        None => "https://api.deepseek.com/v1"@,
                    }
                    &&& c.model@ == match model {
                        Some(m) => m@,
                        None => "deepseek-chat"@,
                    }
                    &&& duration_nanos(c.timeout) == 120_000_000_000
                    &&& c.max_retries == 3
                    &&& duration_nanos(c.initial_backoff) == 1_000_000_000
                    &&& c.provider_name@ == if crate::text::contains(c.base_url@, "openai"@) {
                        "openai"@
                    } else {
                        "deepseek"@
                    }
                },
                Err(e) => decon_key is None && deepseek_key is None && (e matches LlmError::Provider {
                    status,
                    body,
                } && status == 0 && body@ == "DECON_LLM_API_KEY (or DEEPSEEK_API_KEY) not set"@),
            },
    {
        let api_key = match decon_key {
            Some(k) => k.to_owned(),
            None => match deepseek_key {
                Some(k) => k.to_owned(),
                None => {
                    return Err(
                        LlmError::Provider {
                            status: 0,
                            body: "DECON_LLM_API_KEY (or DEEPSEEK_API_KEY) not set".to_owned(),
                        },
                    );
                },
            },
        };
        let base_url = match base_url {
            Some(b) => b.to_owned(),
            None => "https://api.deepseek.com/v1".to_owned(),
        };
        let model = match model {
            Some(m) => m.to_owned(),
            None => "deepseek-chat".to_owned(),
        };
        let provider_name = if crate::text::contains_str(&chars_of(base_url.as_str()), "openai") {
            "openai".to_owned()
        } else {
            "deepseek".to_owned()
        };
        Ok(
            OpenAiClientConfig {
                base_url,
                api_key,
                model,
                timeout: duration_from_secs(120),
                max_retries: 3,
                initial_backoff: duration_from_secs(1),
                provider_name,
            },
        )
    }

    /// Replace the per-request timeout.
    pub fn with_timeout(self, timeout: Duration) -> (c: Self)
        ensures
            c == (OpenAiClientConfig { timeout, ..self }),
    {
        OpenAiClientConfig { timeout, ..self }
    }

    /// Replace the retry count.
    pub fn with_max_retries(self, n: u32) -> (c: Self)
        ensures
            c == (OpenAiClientConfig { max_retries: n, ..self }),
    {
        OpenAiClientConfig { max_retries: n, ..self }
    }

    /// Replace the provider name used in cache keys.
    pub fn with_provider_name(self, name: &str) -> (c: Self)
        ensures
            c.provider_name@ == name@,
            c.base_url == self.base_url,
            c.api_key == self.api_key,
            c.model == self.model,
            c.timeout == self.timeout,
            c.max_retries == self.max_retries,
            c.initial_backoff == self.initial_backoff,
    {
        OpenAiClientConfig { provider_name: name.to_owned(), ..self }
    }

    /// The key as shown in error messages: only its first four characters
    /// (all of it when shorter), then `...`.
    pub fn redact_key(&self) -> (r: String)
        ensures
            r@ == key_prefix(self.api_key@) + "..."@,
    {
        let mut out = key_prefix_chars(self.api_key.as_str());
        push_str(&mut out, "...");
        string_of(&out)
    }

    /// The chat-completions endpoint: the base URL without trailing `/`,
    /// then `/chat/completions`.
    pub fn completions_url(&self) -> (r: String)
        ensures
            r@ == crate::eval::trim_end_char(self.base_url@, '/') + "/chat/completions"@,
    {
        let b = crate::eval::trim_end_char_exec(&chars_of(self.base_url.as_str()), '/');
        let mut out = b;
        push_str(&mut out, "/chat/completions");
        string_of(&out)
    }

    /// Backoff before retry `attempt`: the initial backoff doubled once per
    /// earlier attempt (saturating), capped at 60 seconds.
    pub fn backoff_for(&self, attempt: u32) -> (r: Duration)
        ensures
            duration_nanos(r) == backoff_nanos(duration_nanos(self.initial_backoff), attempt as nat),
    {
        let mut d = self.initial_backoff;
        let mut i: u32 = 0;
        while i < attempt
            invariant
                i <= attempt,
                backoff_nanos(duration_nanos(self.initial_backoff), attempt as nat) == backoff_nanos(
                    duration_nanos(d),
                    (attempt - i) as nat,
                ),
            decreases attempt - i,
        {
            d = double_saturating(d);
            if nanos_of(d) >= 60_000_000_000 {
                return duration_from_secs(60);
            }
            i = i + 1;
        }
        if nanos_of(d) < 60_000_000_000 {
            d
        } else {
            duration_from_secs(60)
        }
    }
}

// ---------------------------------------------------------------------------
// byte prefixes
// ---------------------------------------------------------------------------

/// UTF-8 length of a character (`char::len_utf8`).
pub open spec fn utf8_len_char(c: char) -> nat {
    if (c as u32) < 0x80 {
        1
    } else if (c as u32) < 0x800 {
        2
    } else if (c as u32) < 0x10000 {
        3
    } else {
        4
    }
}

/// UTF-8 length of a string (`str::len`).
pub open spec fn utf8_len(s: Seq<char>) -> nat
    decreases s.len(),
{
    if s.len() == 0 {
        0
    } else {
        utf8_len(s.drop_last()) + utf8_len_char(s.last())
    }
}

/// Number of leading characters whose UTF-8 lengths add up to exactly `n`,
/// if there is such a prefix.
pub open spec fn chars_for_bytes(s: Seq<char>, n: nat) -> Option<nat>
    decreases s.len(),
{
    if n == 0 {
        Some(0)
    } else if s.len() == 0 || utf8_len_char(s[0]) > n {
        None
    } else {
        match chars_for_bytes(s.drop_first(), (n - utf8_len_char(s[0])) as nat) {
            Some(k) => Some(k + 1),
            None => None,
        }
    }
}

/// `&s[..n]` is defined: `s` is no longer than `n` bytes, or byte `n` is a
/// character boundary.
pub open spec fn byte_prefix_ok(s: Seq<char>, n: nat) -> bool {
    utf8_len(s) <= n || chars_for_bytes(s, n) is Some
}

/// `s` cut to its first `n` bytes (all of it when shorter).
pub open spec fn byte_prefix(s: Seq<char>, n: nat) -> Seq<char> {
    if utf8_len(s) <= n {
        s
    } else {
        match chars_for_bytes(s, n) {
            Some(k) => s.take(k as int),
            None => s,
        }
    }
}

fn char_utf8_len(c: char) -> (r: usize)
    ensures
        r == utf8_len_char(c),
        1 <= r <= 4,
{
    let u = c as u32;
    if u < 0x80 {
        1
    } else if u < 0x800 {
        2
    } else if u < 0x10000 {
        3
    } else {
        4
    }
}

proof fn lemma_utf8_len_skip(s: Seq<char>, i: int)
    requires
        0 <= i <= s.len(),
    ensures
        utf8_len(s) == utf8_len(s.take(i)) + utf8_len(s.skip(i)),
    decreases s.len() - i,
{
    if i < s.len() {
        lemma_utf8_len_skip(s, i + 1);
        assert(s.take(i + 1).drop_last() =~= s.take(i));
        lemma_utf8_len_front(s.skip(i));
        assert(s.skip(i).drop_first() =~= s.skip(i + 1));
    } else {
        assert(s.take(i) =~= s);
        assert(s.skip(i) =~= Seq::<char>::empty());
    }
}

proof fn lemma_utf8_len_front(s: Seq<char>)
    requires
        s.len() > 0,
    ensures
        utf8_len(s) == utf8_len_char(s[0]) + utf8_len(s.drop_first()),
    decreases s.len(),
{
    if s.len() > 1 {
        lemma_utf8_len_front(s.drop_last());
        assert(s.drop_last().drop_first() =~= s.drop_first().drop_last());
        assert(s.drop_first().last() == s.last());
        assert(s.drop_last()[0] == s[0]);
        assert(utf8_len(s.drop_first()) == utf8_len(s.drop_first().drop_last()) + utf8_len_char(
            s.drop_first().last(),
        ));
        assert(utf8_len(s) == utf8_len(s.drop_last()) + utf8_len_char(s.last()));
    } else {
        assert(utf8_len(s) == utf8_len(s.drop_last()) + utf8_len_char(s.last()));
        assert(utf8_len(s.drop_last()) == 0);
        assert(utf8_len(s.drop_first()) == 0);
        assert(s.drop_first().len() == 0);
        assert(s.drop_last().len() == 0);
        assert(s.last() == s[0]);
    }
}

/// `&s[..n]` for a string given as characters.
pub fn byte_prefix_chars(s: &[char], n: usize) -> (r: Vec<char>)
    requires
        byte_prefix_ok(s@, n as nat),
    ensures
        r@ == byte_prefix(s@, n as nat),
{
    let mut used: usize = 0;
    let mut i: usize = 0;
    assert(s@.skip(0) =~= s@);
    while i < s.len() && used < n
        invariant
            i <= s@.len(),
            used <= n,
            used == utf8_len(s@.take(i as int)),
            byte_prefix_ok(s@, n as nat),
            utf8_len(s@) > n ==> chars_for_bytes(s@, n as nat) == match chars_for_bytes(
                s@.skip(i as int),
                (n - used) as nat,
            ) {
                Some(k) => Some(k + i as nat),
                None => None::<nat>,
            },
        ensures
            i <= s@.len(),
            used == utf8_len(s@.take(i as int)),
            i == s@.len() || used == n || utf8_len(s@) <= n,
            utf8_len(s@) > n ==> chars_for_bytes(s@, n as nat) == match chars_for_bytes(
                s@.skip(i as int),
                (n - used) as nat,
            ) {
                Some(k) => Some(k + i as nat),
                None => None::<nat>,
            },
        decreases s.len() - i,
    {
        let c = char_utf8_len(s[i]);
        proof {
            lemma_utf8_len_front(s@.skip(i as int));
            assert(s@.skip(i as int)[0] == s@[i as int]);
            assert(s@.skip(i as int).drop_first() =~= s@.skip(i + 1));
            assert(s@.take(i + 1).drop_last() =~= s@.take(i as int));
            lemma_utf8_len_skip(s@, i as int);
        }
        if used + c > n {
            // only possible when the whole text fits in `n` bytes
            proof {
                lemma_utf8_len_skip(s@, i as int);
            }
            assert(utf8_len(s@) <= n);
            break;
        }
        used = used + c;
        i = i + 1;
    }
    proof {
        lemma_utf8_len_skip(s@, i as int);
    }
    if utf8_len_exec_le(s, n) {
        assert(s@.subrange(0, s@.len() as int) =~= s@);
        slice_chars(s, 0, s.len())
    } else {
        assert(i < s@.len() ==> used == n);
        assert(s@.take(i as int) =~= s@.subrange(0, i as int));
        slice_chars(s, 0, i)
    }
}

fn utf8_len_exec_le(s: &[char], n: usize) -> (r: bool)
    ensures
        r == (utf8_len(s@) <= n),
{
    let mut total: usize = 0;
    let mut i: usize = 0;
    while i < s.len()
        invariant
            i <= s@.len(),
            total <= n,
            total == utf8_len(s@.take(i as int)),
        decreases s.len() - i,
    {
        assert(s@.take(i + 1).drop_last() =~= s@.take(i as int));
        let c = char_utf8_len(s[i]);
        if c > n - total {
            proof {
                lemma_utf8_len_skip(s@, i + 1);
            }
            return false;
        }
        total = total + c;
        i = i + 1;
    }
    assert(s@.take(s@.len() as int) =~= s@);
    true
}

/// A response body as shown in error messages: at most 512 bytes, with
/// `...(truncated)` appended when cut.
pub open spec fn truncated_body(b: Seq<char>) -> Seq<char> {
    if utf8_len(b) > 512 {
        byte_prefix(b, 512) + "...(truncated)"@
    } else {
        b
    }
}

fn truncate_body(body: &[char]) -> (r: String)
    requires
        byte_prefix_ok(body@, 512),
    ensures
        r@ == truncated_body(body@),
{
    if utf8_len_exec_le(body, 512) {
        string_of(body)
    } else {
        let mut out = byte_prefix_chars(body, 512);
        push_str(&mut out, "...(truncated)");
        string_of(&out)
    }
}

// ---------------------------------------------------------------------------
// attempts
// ---------------------------------------------------------------------------

/// The seconds of a `Retry-After` header value: the trimmed text read as an
/// unsigned decimal (`str::parse::<u64>`), `None` when it is not one.
pub fn parse_retry_after_secs(value: &str) -> (r: Option<u64>)
    ensures
        r == match crate::config::parse_unsigned(crate::text::trim(value@)) {
            Some(n) => if n <= u64::MAX {
                Some(n as u64)
            } else {
                None::<u64>
            },
            None => None::<u64>,
        },
{
    let t = crate::text::trimmed(&chars_of(value));
    match crate::config::parse_bounded(&t, u64::MAX as u128) {
        Some(n) => Some(n as u64),
        None => None,
    }
}

/// How a response status is handled.
#[derive(Debug, PartialEq, Eq, Structural, Clone, Copy)]
pub enum StatusClass {
    /// 2xx: read and parse the body.
    Success,
    /// 429: retryable, with an optional `Retry-After` hint.
    RateLimited,
    /// 5xx: retryable provider error.
    ServerError,
    /// Anything else: a provider error that is not retried.
    ClientError,
}

/// The class of an HTTP status code.
pub open spec fn status_class(code: u16) -> StatusClass {
    if 200 <= code <= 299 {
        StatusClass::Success
    } else if code == 429 {
        StatusClass::RateLimited
    } else if 500 <= code <= 599 {
        StatusClass::ServerError
    } else {
        StatusClass::ClientError
    }
}

/// Classify an HTTP status code.
pub fn classify_status(code: u16) -> (r: StatusClass)
    ensures
        r == status_class(code),
{
    if 200 <= code && code <= 299 {
        StatusClass::Success
    } else if code == 429 {
        StatusClass::RateLimited
    } else if 500 <= code && code <= 599 {
        StatusClass::ServerError
    } else {
        StatusClass::ClientError
    }
}

/// What one HTTP attempt produced.
#[derive(Debug)]
pub enum AttemptOutcome {
    /// The request could not be built (not retried).
    BuilderError {
        /// The transport error's message.
        detail: String,
    },
    /// The request deadline elapsed (not retried).
    TimedOut,
    /// Any other transport failure (retried).
    NetworkError {
        /// The transport error's message.
        detail: String,
    },
    /// A success status whose body could not be read.
    BodyUnreadable {
        /// The read error's message.
        detail: String,
    },
    /// A success status whose body is not the expected JSON.
    InvalidJson {
        /// The JSON error's message.
        detail: String,
    },
    /// A success status with a parsed body: the first choice's content.
    Completed {
        /// `choices[0].message.content`, when present.
        content: Option<String>,
    },
    /// A 429 response with its `Retry-After` hint.
    RateLimited {
        /// The advised wait, when the header held whole seconds.
        retry_after: Option<Duration>,
    },
    /// A response with another non-success status, and its body.
    Status {
        /// HTTP status code.
        status: u16,
        /// Response body (empty when it could not be read).
        body: String,
    },
}

/// What the client does after an attempt.
#[derive(Debug)]
pub enum AttemptAction {
    /// Wait, then try again.
    Retry {
        /// How long to wait.
        wait: Duration,
    },
    /// Stop with this result.
    Finish(Result<String, LlmError>),
}

/// Whether attempt `attempt` (zero-based) may be followed by another.
pub open spec fn can_retry(config: OpenAiClientConfig, attempt: u32) -> bool {
    attempt < config.max_retries
}

/// The network error message for a failed send.
pub open spec fn network_text(config: OpenAiClientConfig, detail: Seq<char>) -> Seq<char> {
    "request failed (key "@ + key_prefix(config.api_key@) + "...): "@ + detail
}

/// Decide what to do after an attempt.
pub fn next_action(config: &OpenAiClientConfig, attempt: u32, outcome: AttemptOutcome) -> (r:
    AttemptAction)
    requires
        outcome matches AttemptOutcome::Status { body, .. } ==> byte_prefix_ok(body@, 512),
    ensures
        match outcome {
            AttemptOutcome::BuilderError { detail } => r matches AttemptAction::Finish(Err(
                LlmError::Network { message },
            )) && message@ == "request builder error: "@ + detail@,
            AttemptOutcome::TimedOut => r matches AttemptAction::Finish(Err(LlmError::Timeout)),
            AttemptOutcome::NetworkError { detail } => if can_retry(*config, attempt) {
                r matches AttemptAction::Retry { wait } && duration_nanos(wait) == backoff_nanos(
                    duration_nanos(config.initial_backoff),
                    attempt as nat,
                )
            } else {
                r matches AttemptAction::Finish(Err(LlmError::Network { message })) && message@
                    == network_text(*config, detail@)
            },
            AttemptOutcome::BodyUnreadable { detail } => r matches AttemptAction::Finish(Err(
                LlmError::Parse { message },
            )) && message@ == "failed to read response body: "@ + detail@,
            AttemptOutcome::InvalidJson { detail } => r matches AttemptAction::Finish(Err(
                LlmError::Parse { message },
            )) && message@ == "invalid response JSON: "@ + detail@,
            AttemptOutcome::Completed { content } => match content {
                Some(c) => r matches AttemptAction::Finish(Ok(t)) && t@ == c@,
                None => r matches AttemptAction::Finish(Err(LlmError::Parse { message })) && message@
                    == "response had no choices[0].message.content"@,
            },
            AttemptOutcome::RateLimited { retry_after } => if can_retry(*config, attempt) {
                r matches AttemptAction::Retry { wait } && match retry_after {
                    Some(h) => wait == h,
                    None => duration_nanos(wait) == backoff_nanos(
                        duration_nanos(config.initial_backoff),
                        attempt as nat,
                    ),
                }
            } else {
                r matches AttemptAction::Finish(Err(LlmError::RateLimit { retry_after: h }))
                    && h == retry_after
            },
            AttemptOutcome::Status { status, body } => if status_class(status)
                == StatusClass::ServerError && can_retry(*config, attempt) {
                r matches AttemptAction::Retry { wait } && duration_nanos(wait) == backoff_nanos(
                    duration_nanos(config.initial_backoff),
                    attempt as nat,
                )
            } else {
                r matches AttemptAction::Finish(Err(LlmError::Provider { status: s, body: b }))
                    && s == status && b@ == truncated_body(body@)
            },
        },
{
    match outcome {
        AttemptOutcome::BuilderError { detail } => {
            let mut m: Vec<char> = Vec::new();
            push_str(&mut m, "request builder error: ");
            push_str(&mut m, detail.as_str());
            AttemptAction::Finish(Err(LlmError::Network { message: string_of(&m) }))
        },
        AttemptOutcome::TimedOut => AttemptAction::Finish(Err(LlmError::Timeout)),
        AttemptOutcome::NetworkError { detail } => {
            if attempt < config.max_retries {
                AttemptAction::Retry { wait: config.backoff_for(attempt) }
            } else {
                let mut m: Vec<char> = Vec::new();
                push_str(&mut m, "request failed (key ");
                let k = key_prefix_chars(config.api_key.as_str());
                push_all(&mut m, &k);
                push_str(&mut m, "...): ");
                push_str(&mut m, detail.as_str());
                AttemptAction::Finish(Err(LlmError::Network { message: string_of(&m) }))
            }
        },
        AttemptOutcome::BodyUnreadable { detail } => {
            let mut m: Vec<char> = Vec::new();
            push_str(&mut m, "failed to read response body: ");
            push_str(&mut m, detail.as_str());
            AttemptAction::Finish(Err(LlmError::Parse { message: string_of(&m) }))
        },
        AttemptOutcome::InvalidJson { detail } => {
            let mut m: Vec<char> = Vec::new();
            push_str(&mut m, "invalid response JSON: ");
            push_str(&mut m, detail.as_str());
            AttemptAction::Finish(Err(LlmError::Parse { message: string_of(&m) }))
        },
        AttemptOutcome::Completed { content } => match content {
            Some(c) => AttemptAction::Finish(Ok(c)),
            None => AttemptAction::Finish(
                Err(LlmError::parse("response had no choices[0].message.content")),
            ),
        },
        AttemptOutcome::RateLimited { retry_after } => {
            if attempt < config.max_retries {
                let wait = match retry_after {
                    Some(h) => h,
                    None => config.backoff_for(attempt),
                };
                AttemptAction::Retry { wait }
            } else {
                AttemptAction::Finish(Err(LlmError::RateLimit { retry_after }))
            }
        },
        AttemptOutcome::Status { status, body } => {
            let class = classify_status(status);
            if class == StatusClass::ServerError && attempt < config.max_retries {
                AttemptAction::Retry { wait: config.backoff_for(attempt) }
            } else {
                let b = truncate_body(&chars_of(body.as_str()));
                AttemptAction::Finish(Err(LlmError::Provider { status, body: b }))
            }
        },
    }
}

/// No backoff wait exceeds 60 seconds, and the waits never shrink from one
/// attempt to the next.
pub proof fn lemma_backoff_bounds(initial: nat, attempt: nat)
    ensures
        backoff_nanos(initial, attempt) <= backoff_cap(),
        backoff_nanos(initial, attempt) <= backoff_nanos(initial, attempt + 1),
    decreases attempt,
{
    let d = if initial * 2 <= max_nanos() {
        initial * 2
    } else {
        max_nanos()
    };
    if attempt > 0 {
        lemma_backoff_bounds(d, (attempt - 1) as nat);
    } else {
        assert(backoff_nanos(initial, 1) == if d >= backoff_cap() {
            backoff_cap()
        } else {
            backoff_nanos(d, 0)
        });
    }
}

} // verus!

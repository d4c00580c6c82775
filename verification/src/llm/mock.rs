//! Deterministic scripted LLM client for tests and offline runs.
//!
//! Responses are returned in order; once the script runs out the last
//! response repeats. An error can be injected at one call index. The shared
//! (`Mutex`) handle and the async client trait live with the callers; this
//! is the client's state and the decision each call makes.

use vstd::prelude::*;

use crate::llm::error::LlmError;

verus! {

broadcast use vstd::string::group_string_axioms;

/// Scripted mock client state.
#[derive(Debug)]
pub struct MockClient {
    responses: Vec<String>,
    next: usize,
    calls: usize,
    fail_on: Option<(usize, LlmError)>,
}

impl MockClient {
    /// The scripted responses.
    pub closed spec fn spec_responses(&self) -> Seq<Seq<char>> {
        crate::scope::string_views(self.responses@)
    }

    /// Index of the next scripted response.
    pub closed spec fn spec_next(&self) -> nat {
        self.next as nat
    }

    /// Number of completions served so far.
    pub closed spec fn spec_calls(&self) -> nat {
        self.calls as nat
    }

    /// The injected failure: call index and error.
    pub closed spec fn spec_fail_on(&self) -> Option<(usize, LlmError)> {
        self.fail_on
    }

    /// At least one response, and the cursor points at one of them.
    pub closed spec fn wf(&self) -> bool {
        self.responses@.len() > 0 && self.next < self.responses@.len()
    }

    /// Every client has a response under its cursor.
    #[verifier::type_invariant]
    spec fn has_response(&self) -> bool {
        self.responses@.len() > 0 && self.next < self.responses@.len()
    }

    /// A mock that always returns `response`.
    pub fn new(response: &str) -> (m: MockClient)
        ensures
            m.wf(),
            m.spec_responses() == seq![response@],
            m.spec_next() == 0,
            m.spec_calls() == 0,
            m.spec_fail_on() is None,
    {
        let mut responses: Vec<String> = Vec::new();
        responses.push(response.to_owned());
        let m = MockClient { responses, next: 0, calls: 0, fail_on: None };
        assert(m.spec_responses() =~= seq![response@]);
        m
    }

    /// A mock that returns `responses` in order, repeating the last; an
    /// empty script is refused with a `Parse` error.
    pub fn with_responses(responses: Vec<String>) -> (r: Result<MockClient, LlmError>)
        ensures
            match r {
                Ok(m) => responses@.len() > 0 && m.wf() && m.spec_responses()
                    == crate::scope::string_views(responses@) && m.spec_next() == 0
                    && m.spec_calls() == 0 && m.spec_fail_on() is None,
                Err(e) => responses@.len() == 0 && (e matches LlmError::Parse { message }
                    && message@ == "MockClient::with_responses requires at least one response"@),
            },
    {
        if responses.len() == 0 {
            return Err(LlmError::parse("MockClient::with_responses requires at least one response"));
        }
        Ok(MockClient { responses, next: 0, calls: 0, fail_on: None })
    }

    /// Inject `error` at the zero-based `call_index` (the call still
    /// advances the script).
    pub fn fail_on(self, call_index: usize, error: LlmError) -> (m: MockClient)
        ensures
            m.wf(),
            m.spec_responses() == self.spec_responses(),
            m.spec_next() == self.spec_next(),
            m.spec_calls() == self.spec_calls(),
            m.spec_fail_on() == Some((call_index, error)),
    {
        proof {
            use_type_invariant(&self);
        }
        MockClient { fail_on: Some((call_index, error)), ..self }
    }

    /// Number of completions served so far.
    pub fn call_count(&self) -> (n: usize)
        ensures
            n == self.spec_calls(),
    {
        self.calls
    }

    /// Serve one completion: the response under the cursor (advancing it
    /// unless it is on the last response), or the injected error when this
    /// is the failing call.
    pub fn complete_next(&mut self) -> (r: Result<String, LlmError>)
        requires
            old(self).spec_calls() < usize::MAX,
        ensures
            final(self).wf(),
            final(self).spec_responses() == old(self).spec_responses(),
            final(self).spec_fail_on() == old(self).spec_fail_on(),
            final(self).spec_calls() == old(self).spec_calls() + 1,
            final(self).spec_next() == next_cursor(old(self).spec_responses().len(), old(self).spec_next()),
            match old(self).spec_fail_on() {
                Some((i, e)) if i == old(self).spec_calls() => r == Err::<String, LlmError>(e),
                _ => (r matches Ok(s) && s@ == old(self).spec_responses()[old(self).spec_next() as int]),
            },
            reply_view(r) == scripted_reply(
                old(self).spec_responses(),
                old(self).spec_fail_on(),
                state_after(*old(self), 0),
            ),
            state_after(*final(self), 0) == state_after(*old(self), 1),
    {
        proof {
            use_type_invariant(&*self);
        }
        let call_index = self.calls;
        self.calls = self.calls + 1;
        let idx = self.next;
        let resp = self.responses[idx].clone();
        if self.next < self.responses.len() - 1 {
            self.next = self.next + 1;
        }
        match &self.fail_on {
            Some((i, e)) => {
                if *i == call_index {
                    return Err(e.duplicate());
                }
            },
            None => {},
        }
        Ok(resp)
    }
}

/// The cursor after one call: one step on, or kept on the last response.
pub open spec fn next_cursor(len: nat, next: nat) -> nat {
    if next + 1 < len {
        next + 1
    } else {
        next
    }
}

/// The cursor after `n` calls.
pub open spec fn cursor_after(len: nat, next: nat, n: nat) -> nat
    decreases n,
{
    if n == 0 {
        next
    } else {
        cursor_after(len, next_cursor(len, next), (n - 1) as nat)
    }
}

/// Responses are served in order, one per call, and once the script is
/// exhausted the last response repeats: after `n` calls from cursor `next`
/// the cursor is at `min(next + n, len - 1)`.
pub proof fn lemma_mock_cursor(len: nat, next: nat, n: nat)
    requires
        next < len,
    ensures
        cursor_after(len, next, n) == if next + n < len {
            next + n
        } else {
            (len - 1) as nat
        },
    decreases n,
{
    if n > 0 {
        lemma_mock_cursor(len, next_cursor(len, next), (n - 1) as nat);
    }
}

/// A reply with the text as characters.
pub open spec fn reply_view(r: Result<String, LlmError>) -> Result<Seq<char>, LlmError> {
    match r {
        Ok(s) => Ok(s@),
        Err(e) => Err(e),
    }
}

/// The (cursor, calls) state of a mock after `k` more calls.
pub open spec fn state_after(m: MockClient, k: nat) -> (nat, nat) {
    (cursor_after(m.spec_responses().len(), m.spec_next(), k), m.spec_calls() + k)
}

/// The reply of a call made in state `(next, calls)`: the injected error
/// when `calls` is the failing index, else the response under the cursor.
pub open spec fn scripted_reply(
    responses: Seq<Seq<char>>,
    fail_on: Option<(usize, LlmError)>,
    st: (nat, nat),
) -> Result<Seq<char>, LlmError> {
    match fail_on {
        Some((i, e)) if i == st.1 => Err(e),
        _ => Ok(responses[st.0 as int]),
    }
}

/// A fresh scripted client answers call `k` (counting from 0) with the
/// injected error when `k` is the failing index, else with response
/// `min(k, len - 1)`: replies come in order, a failure still counts and
/// advances the script, and the last reply repeats.
pub proof fn lemma_mock_script(m: MockClient, k: nat)
    requires
        m.wf(),
        m.spec_next() == 0,
        m.spec_calls() == 0,
    ensures
        state_after(m, k).1 == k,
        state_after(m, k).0 == if k < m.spec_responses().len() {
            k
        } else {
            (m.spec_responses().len() - 1) as nat
        },
        scripted_reply(m.spec_responses(), m.spec_fail_on(), state_after(m, k)) == match m.spec_fail_on() {
            Some((i, e)) if i == k => Err::<Seq<char>, LlmError>(e),
            _ => Ok(m.spec_responses()[if k < m.spec_responses().len() {
                k as int
            } else {
                m.spec_responses().len() - 1
            }]),
        },
{
    lemma_mock_cursor(m.spec_responses().len(), 0, k);
}

/// One call moves the whole script one step: a client that has served one
/// more call than `m`, from the same script, is `j` calls further exactly
/// where `m` is `j + 1` calls further. With `complete_next`'s ensures and
/// `lemma_mock_script`, this gives the reply of every call of a sequence.
pub proof fn lemma_mock_step(m: MockClient, m2: MockClient, j: nat)
    requires
        m2.spec_responses() == m.spec_responses(),
        state_after(m2, 0) == state_after(m, 1),
    ensures
        state_after(m2, j) == state_after(m, j + 1),
{
    reveal_with_fuel(cursor_after, 2);
    assert(cursor_after(m.spec_responses().len(), m.spec_next(), 1) == next_cursor(
        m.spec_responses().len(),
        m.spec_next(),
    ));
    assert(cursor_after(m.spec_responses().len(), m.spec_next(), j + 1) == cursor_after(
        m.spec_responses().len(),
        next_cursor(m.spec_responses().len(), m.spec_next()),
        j,
    ));
}

} // verus!

//! Keys and file names of the LLM response cache.
//!
//! A key is `sha256:` and the lowercase hex SHA-256 of the compact JSON
//! object `{"extras":..,"model":..,"prompt":..,"provider":..}` (keys in
//! sorted order, `extras` null when absent). Reading and writing entries is
//! done by the caller.

use vstd::prelude::*;

use sha2::Digest;

use crate::text::{chars_of, push_str, string_of};

verus! {

broadcast use vstd::string::group_string_axioms;

/// Errors of the response cache.
#[derive(Debug)]
pub enum CacheError {
    /// The cache key could not be serialized.
    Key(String),
    /// Reading or writing an entry failed.
    Io {
        /// The path involved.
        path: String,
        /// The I/O error's message.
        message: String,
    },
}

impl CacheError {
    /// The error message.
    pub fn to_string(&self) -> (r: String)
        ensures
            r@ == match *self {
                CacheError::Key(m) => "cache key serialization failed: "@ + m@,
                CacheError::Io { path, message } => "cache I/O at "@ + path@ + ": "@ + message@,
            },
    {
        let mut out: Vec<char> = Vec::new();
        match self {
            CacheError::Key(m) => {
                push_str(&mut out, "cache key serialization failed: ");
                push_str(&mut out, m.as_str());
            },
            CacheError::Io { path, message } => {
                push_str(&mut out, "cache I/O at ");
                push_str(&mut out, path.as_str());
                push_str(&mut out, ": ");
                push_str(&mut out, message.as_str());
            },
        }
        string_of(&out)
    }
}

/// Everything that distinguishes one completion request from another.
#[derive(Clone, Debug, PartialEq, Eq)]
pub struct CacheKeyInput<'a> {
    /// The prompt text.
    pub prompt: &'a str,
    /// Model id.
    pub model: &'a str,
    /// Provider name.
    pub provider: &'a str,
    /// Extra request parameters that change the answer, if any.
    pub extras: Option<&'a str>,
}

/// How `serde_json` writes one character inside a string literal: `"` and
/// the backslash escaped with a backslash; backspace, tab, line feed, form
/// feed and carriage return as backslash and `b`, `t`, `n`, `f`, `r`; any
/// other control character below `0x20` as backslash, `u00` and two
/// lowercase hex digits; every other character as itself.
pub open spec fn json_char(c: char) -> Seq<char> {
    if c == '"' {
        seq!['\\', '"']
    } else if c == '\\' {
        seq!['\\', '\\']
    } else if c == '\u{8}' {
        seq!['\\', 'b']
    } else if c == '\t' {
        seq!['\\', 't']
    } else if c == '\n' {
        seq!['\\', 'n']
    } else if c == '\u{c}' {
        seq!['\\', 'f']
    } else if c == '\r' {
        seq!['\\', 'r']
    } else if (c as u32) < 0x20 {
        seq!['\\', 'u', '0', '0', hex_digit(((c as u32) / 16) as u8), hex_digit(((c as u32) % 16) as u8)]
    } else {
        seq![c]
    }
}

/// The escaped characters of a JSON string literal's body.
pub open spec fn json_escaped(s: Seq<char>) -> Seq<char>
    decreases s.len(),
{
    if s.len() == 0 {
        Seq::empty()
    } else {
        json_escaped(s.drop_last()) + json_char(s.last())
    }
}

/// What `serde_json::to_string` gives for a string: the quoted, escaped
/// JSON string literal.
pub open spec fn json_string(s: Seq<char>) -> Seq<char> {
    seq!['"'] + json_escaped(s) + seq!['"']
}

/// What `Sha256::digest` gives for a byte string (32 bytes).
pub uninterp spec fn sha256(b: Seq<u8>) -> Seq<u8>;

/// Trusted: `serde_json::to_string` on a `str` succeeds (the compact
/// serializer writes into a `Vec`, which cannot fail) and gives the quoted,
/// escaped literal `json_string`.
#[verifier::external_body]
pub(crate) fn to_json_string(s: &str) -> (r: Result<String, String>)
    ensures
        r is Ok,
        r matches Ok(t) ==> t@ == json_string(s@),
{
    serde_json::to_string(s).map_err(|e| e.to_string())
}

/// Trusted: `sha2::Sha256::digest` gives the 32-byte SHA-256 digest of
/// `data`, named `sha256`.
#[verifier::external_body]
fn sha256_digest(data: &[u8]) -> (r: Vec<u8>)
    ensures
        r@ == sha256(data@),
        r@.len() == 32,
{
    sha2::Sha256::digest(data).to_vec()
}

/// Lowercase hex digit for `d < 16`.
pub open spec fn hex_digit(d: u8) -> char {
    if d < 10 {
        ((d as int) + 48) as char
    } else {
        ((d as int) + 87) as char
    }
}

/// Lowercase hex, two digits per byte, high nibble first (`hex::encode`).
pub open spec fn hex_text(b: Seq<u8>) -> Seq<char>
    decreases b.len(),
{
    if b.len() == 0 {
        Seq::empty()
    } else {
        hex_text(b.drop_last()) + seq![hex_digit(b.last() / 16), hex_digit(b.last() % 16)]
    }
}

/// Trusted: `hex::encode` writes each byte as two lowercase hexadecimal
/// digits, high nibble first (`hex_text`).
#[verifier::external_body]
fn hex_encode(b: &[u8]) -> (r: String)
    ensures
        r@ == hex_text(b@),
{
    hex::encode(b)
}

/// The JSON object hashed for a key.
pub open spec fn key_json(input: CacheKeyInput) -> Seq<char> {
    "{\"extras\":"@ + match input.extras {
        Some(e) => json_string(e@),
        None => "null"@,
    } + ",\"model\":"@ + json_string(input.model@) + ",\"prompt\":"@ + json_string(input.prompt@)
        + ",\"provider\":"@ + json_string(input.provider@) + "}"@
}

/// The cache key of a request.
pub open spec fn key_text(input: CacheKeyInput) -> Seq<char> {
    "sha256:"@ + hex_text(sha256(vstd::utf8::encode_utf8(key_json(input))))
}

fn push_json(out: &mut Vec<char>, s: &str) -> (r: Result<(), String>)
    ensures
        r is Ok,
        final(out)@ == old(out)@ + json_string(s@),
{
    match to_json_string(s) {
        Ok(j) => {
            push_str(out, j.as_str());
            Ok(())
        },
        Err(e) => Err(e),
    }
}

/// Stable cache key for a request: `sha256:` and the hex digest of its
/// canonical JSON. Serializing the strings cannot fail, so the result is
/// always `Ok`.
pub fn cache_key(input: &CacheKeyInput) -> (r: Result<String, CacheError>)
    ensures
        match r {
            Ok(k) => k@ == key_text(*input),
            Err(_) => false,
        },
{
    let mut j: Vec<char> = Vec::new();
    push_str(&mut j, "{\"extras\":");
    match input.extras {
        Some(e) => {
            if let Err(m) = push_json(&mut j, e) {
                return Err(CacheError::Key(m));
            }
        },
        None => {
            push_str(&mut j, "null");
        },
    }
    push_str(&mut j, ",\"model\":");
    if let Err(m) = push_json(&mut j, input.model) {
        return Err(CacheError::Key(m));
    }
    push_str(&mut j, ",\"prompt\":");
    if let Err(m) = push_json(&mut j, input.prompt) {
        return Err(CacheError::Key(m));
    }
    push_str(&mut j, ",\"provider\":");
    if let Err(m) = push_json(&mut j, input.provider) {
        return Err(CacheError::Key(m));
    }
    push_str(&mut j, "}");
    assert(j@ =~= key_json(*input));
    let text = string_of(&j);
    let bytes = text.as_str().as_bytes();
    let digest = sha256_digest(bytes);
    let hexs = hex_encode(&digest);
    let mut out: Vec<char> = Vec::new();
    push_str(&mut out, "sha256:");
    push_str(&mut out, hexs.as_str());
    Ok(string_of(&out))
}

/// A response cache rooted at a directory.
#[derive(Clone, Debug)]
pub struct DiskCache {
    /// Cache directory.
    pub root: String,
}

impl DiskCache {
    /// A cache rooted at `root`.
    pub fn new(root: &str) -> (c: DiskCache)
        ensures
            c.root@ == root@,
    {
        DiskCache { root: root.to_owned() }
    }

    /// File name of a key's entry: the key without its `sha256:` prefix,
    /// plus `.json`.
    pub fn entry_file_name(&self, key: &str) -> (r: String)
        ensures
            r@ == (if crate::text::starts_with(key@, "sha256:"@) {
                key@.skip(7)
            } else {
                key@
            }) + ".json"@,
    {
        let k = chars_of(key);
        let mut out: Vec<char> = if crate::text::starts_with_str(&k, "sha256:") {
            proof {
                reveal_strlit("sha256:");
            }
            let n = k.len();
            let v = crate::text::slice_chars(&k, 7, n);
            assert(v@ =~= key@.skip(7));
            v
        } else {
            k
        };
        push_str(&mut out, ".json");
        string_of(&out)
    }
}

} // verus!

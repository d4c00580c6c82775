//! Checkpoint directory rules: where a checkpoint lives and which manifest
//! names and integrity checks are accepted.

use vstd::prelude::*;

use crate::text::{chars_of, push_str, string_of};

verus! {

broadcast use vstd::string::group_string_axioms;

/// Errors of the checkpoint store.
#[derive(Debug)]
pub enum CheckpointStoreError {
    /// Reading or writing a file failed.
    Io {
        /// The path involved.
        path: String,
        /// The I/O error's message.
        message: String,
    },
    /// The manifest name or content failed a check.
    ManifestIntegrity(String),
    /// A checkpoint file is missing.
    NotFound(String),
}

impl CheckpointStoreError {
    /// The error message.
    pub fn to_string(&self) -> (r: String)
        ensures
            r@ == match *self {
                CheckpointStoreError::Io { path, message } => "checkpoint I/O at "@ + path@ + ": "@
                    + message@,
                CheckpointStoreError::ManifestIntegrity(m) => "manifest integrity check failed: "@
                    + m@,
                CheckpointStoreError::NotFound(p) => "checkpoint not found: "@ + p@,
            },
    {
        let mut out: Vec<char> = Vec::new();
        match self {
            CheckpointStoreError::Io { path, message } => {
                push_str(&mut out, "checkpoint I/O at ");
                push_str(&mut out, path.as_str());
                push_str(&mut out, ": ");
                push_str(&mut out, message.as_str());
            },
            CheckpointStoreError::ManifestIntegrity(m) => {
                push_str(&mut out, "manifest integrity check failed: ");
                push_str(&mut out, m.as_str());
            },
            CheckpointStoreError::NotFound(p) => {
                push_str(&mut out, "checkpoint not found: ");
                push_str(&mut out, p.as_str());
            },
        }
        string_of(&out)
    }
}

/// Checkpoint store rooted at a directory.
#[derive(Clone, Debug)]
pub struct CheckpointStore {
    /// Checkpoint directory.
    pub dir: String,
}

/// A manifest name that stays inside the checkpoint directory: non-empty,
/// no separators and no `..`.
pub open spec fn safe_manifest_name(rel: Seq<char>) -> bool {
    &&& rel.len() > 0
    &&& !rel.contains('/')
    &&& !rel.contains('\\')
    &&& rel != "."@
    &&& !crate::text::contains(rel, ".."@)
}

impl CheckpointStore {
    /// A store rooted at `dir`.
    pub fn new(dir: &str) -> (s: CheckpointStore)
        ensures
            s.dir@ == dir@,
    {
        CheckpointStore { dir: dir.to_owned() }
    }

    /// Accept a manifest name only when it is a single relative file name.
    pub fn validate_manifest_rel(rel: &str) -> (r: Result<(), CheckpointStoreError>)
        ensures
            match r {
                Ok(()) => safe_manifest_name(rel@),
                Err(CheckpointStoreError::ManifestIntegrity(m)) => !safe_manifest_name(rel@) && m@
                    == "unsafe manifest path: "@ + crate::mermaid::str_debug(rel@)
                    + " (must be a single relative filename)"@,
                Err(_) => false,
            },
    {
        let v = chars_of(rel);
        if v.len() == 0 || crate::text::has_char(&v, '/') || crate::text::has_char(&v, '\\')
            || crate::text::eq_str(&v, ".") || crate::text::eq_str(&v, "..")
            || crate::text::contains_str(&v, "..") {
            proof {
                reveal_strlit("..");
                reveal_strlit(".");
                if v@ == ".."@ {
                    assert(v@.subrange(0, 2) =~= ".."@);
                    assert(crate::text::matches_at(v@, ".."@, 0));
                }
            }
            let mut m: Vec<char> = Vec::new();
            push_str(&mut m, "unsafe manifest path: ");
            let d = crate::mermaid::debug_string(rel);
            push_str(&mut m, d.as_str());
            push_str(&mut m, " (must be a single relative filename)");
            return Err(CheckpointStoreError::ManifestIntegrity(string_of(&m)));
        }
        Ok(())
    }

    /// Compare a manifest's recorded digest and size with what was read.
    pub fn check_manifest(expected_sha: &str, actual_sha: &str, expected_size: u64, actual_size: u64) -> (r:
        Result<(), CheckpointStoreError>)
        ensures
            r is Ok <==> (expected_sha@ == actual_sha@ && expected_size == actual_size),
            expected_sha@ != actual_sha@ ==> (r matches Err(CheckpointStoreError::ManifestIntegrity(
                m,
            )) && m@ == "sha256 mismatch: expected "@ + expected_sha@ + ", got "@ + actual_sha@),
            expected_sha@ == actual_sha@ && expected_size != actual_size ==> (r matches Err(
                CheckpointStoreError::ManifestIntegrity(m),
            ) && m@ == "size mismatch: expected "@ + crate::text::decimal(expected_size as nat)
                + ", got "@ + crate::text::decimal(actual_size as nat)),
    {
        if !crate::text::eq_chars(&chars_of(expected_sha), &chars_of(actual_sha)) {
            let mut m: Vec<char> = Vec::new();
            push_str(&mut m, "sha256 mismatch: expected ");
            push_str(&mut m, expected_sha);
            push_str(&mut m, ", got ");
            push_str(&mut m, actual_sha);
            return Err(CheckpointStoreError::ManifestIntegrity(string_of(&m)));
        }
        if expected_size != actual_size {
            let mut m: Vec<char> = Vec::new();
            push_str(&mut m, "size mismatch: expected ");
            crate::text::push_all(&mut m, &crate::text::decimal_chars(expected_size));
            push_str(&mut m, ", got ");
            crate::text::push_all(&mut m, &crate::text::decimal_chars(actual_size));
            return Err(CheckpointStoreError::ManifestIntegrity(string_of(&m)));
        }
        Ok(())
    }
}

} // verus!

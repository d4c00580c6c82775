//! Local crawl inventory: relative POSIX paths with their sizes.
//!
//! Walking the tree is the caller's business; this module owns the result
//! type, its ordering (sorted by path, sizes kept parallel) and the path
//! normalization.

use vstd::prelude::*;

use crate::order::{lex_lt, sort_seq, sort_stable, KeyOrder};
use crate::text::{chars_of, push_str, string_of};

verus! {

broadcast use vstd::string::group_string_axioms;

/// Sorted inventory of a crawled tree.
#[derive(Clone, Debug, Default, PartialEq, Eq)]
pub struct CrawlResult {
    /// Relative POSIX paths, sorted.
    pub files: Vec<String>,
    /// Byte sizes, parallel to `files`.
    pub sizes: Vec<u64>,
}

impl CrawlResult {
    /// Number of files.
    pub fn file_count(&self) -> (n: usize)
        ensures
            n == self.files@.len(),
    {
        self.files.len()
    }

    /// `(path, size)` pairs in order (pairs up to the shorter list).
    pub fn iter(&self) -> (r: Vec<(String, u64)>)
        ensures
            r@.len() == if self.files@.len() <= self.sizes@.len() {
                self.files@.len()
            } else {
                self.sizes@.len()
            },
            forall|i: int|
                0 <= i < r@.len() ==> #[trigger] r@[i].0 == self.files@[i] && r@[i].1 == self.sizes@[i],
    {
        let mut out: Vec<(String, u64)> = Vec::new();
        let mut i: usize = 0;
        while i < self.files.len() && i < self.sizes.len()
            invariant
                i <= self.files@.len(),
                i <= self.sizes@.len(),
                out@.len() == i,
                forall|j: int|
                    0 <= j < i ==> #[trigger] out@[j].0 == self.files@[j] && out@[j].1 == self.sizes@[j],
            decreases self.files.len() - i,
        {
            out.push((self.files[i].clone(), self.sizes[i]));
            i = i + 1;
        }
        out
    }
}

impl KeyOrder for (String, u64) {
    open spec fn key_le(a: (String, u64), b: (String, u64)) -> bool {
        !lex_lt(b.0@, a.0@)
    }

    fn le_exec(&self, other: &(String, u64)) -> (r: bool) {
        let a = chars_of(self.0.as_str());
        let b = chars_of(other.0.as_str());
        !crate::order::lex_less(&b, &a)
    }
}

/// A hidden entry name starts with `.`; the walk skips hidden directories
/// and keeps hidden files.
pub fn is_hidden_name(name: &str) -> (r: bool)
    ensures
        r == (name@.len() > 0 && name@[0] == '.'),
{
    let v = chars_of(name);
    v.len() > 0 && v[0] == '.'
}

/// Ordering entries by path is a total, transitive order.
proof fn lemma_path_order_total()
    ensures
        crate::order::is_total_order::<(String, u64)>(),
{
    assert forall|a: (String, u64), b: (String, u64)|
        <(String, u64) as KeyOrder>::key_le(a, b) || <(String, u64) as KeyOrder>::key_le(b, a) by {
        crate::order::lemma_lex_total(a.0@, b.0@);
    }
    assert forall|a: (String, u64), b: (String, u64), c: (String, u64)|
        <(String, u64) as KeyOrder>::key_le(a, b) && <(String, u64) as KeyOrder>::key_le(b, c)
            implies <(String, u64) as KeyOrder>::key_le(a, c) by {
        crate::order::lemma_lex_total(a.0@, b.0@);
        crate::order::lemma_lex_total(c.0@, a.0@);
        if lex_lt(c.0@, a.0@) && lex_lt(a.0@, b.0@) {
            crate::order::lemma_lex_trans(c.0@, a.0@, b.0@);
        }
    }
}

/// The stable sort by path leaves paths in non-decreasing order.
proof fn lemma_sorted_paths(entries: Seq<(String, u64)>)
    ensures
        forall|i: int, j: int|
            0 <= i < j < sort_seq(entries).len() ==> crate::order::lex_le(
                #[trigger] sort_seq(entries)[i].0@,
                #[trigger] sort_seq(entries)[j].0@,
            ),
{
    lemma_path_order_total();
    crate::order::lemma_sort_sorted(entries);
    let t = sort_seq(entries);
    assert forall|i: int, j: int| 0 <= i < j < t.len() implies crate::order::lex_le(
        t[i].0@,
        t[j].0@,
    ) by {
        assert(<(String, u64) as KeyOrder>::key_le(t[i], t[j]));
        crate::order::lemma_lex_total(t[i].0@, t[j].0@);
    }
}

/// Build the result from `(path, size)` entries: sorted by path (stable),
/// sizes kept with their paths.
pub fn crawl_result_from_entries(entries: Vec<(String, u64)>) -> (r: CrawlResult)
    ensures
        r.files@.len() == entries@.len(),
        r.sizes@.len() == entries@.len(),
        forall|i: int|
            0 <= i < entries@.len() ==> #[trigger] r.files@[i] == sort_seq(entries@)[i].0
                && r.sizes@[i] == sort_seq(entries@)[i].1,
        forall|i: int, j: int|
            0 <= i < j < r.files@.len() ==> crate::order::lex_le(
                #[trigger] r.files@[i]@,
                #[trigger] r.files@[j]@,
            ),
{
    let sorted = sort_stable(entries);
    proof {
        crate::order::lemma_sort_elems(entries@);
    }
    let mut files: Vec<String> = Vec::new();
    let mut sizes: Vec<u64> = Vec::new();
    let mut i: usize = 0;
    while i < sorted.len()
        invariant
            i <= sorted@.len(),
            files@.len() == i,
            sizes@.len() == i,
            forall|j: int| 0 <= j < i ==> #[trigger] files@[j] == sorted@[j].0 && sizes@[j] == sorted@[j].1,
        decreases sorted.len() - i,
    {
        let path = sorted[i].0.clone();
        files.push(path);
        sizes.push(sorted[i].1);
        assert(files@[i as int] == sorted@[i as int].0);
        i = i + 1;
    }
    proof {
        lemma_sorted_paths(entries@);
    }
    CrawlResult { files, sizes }
}

/// A relative path with `\` separators turned into `/`.
pub fn posix_path(rel: &str) -> (r: String)
    ensures
        r@ == crate::text::replace(rel@, "\\"@, "/"@),
{
    proof {
        reveal_strlit("\\");
    }
    let v = chars_of(rel);
    let out = crate::text::replace_str(&v, "\\", "/");
    string_of(&out)
}

/// Errors of a local crawl.
#[derive(Debug)]
pub enum CrawlError {
    /// The root is not a directory.
    NotADirectory(String),
    /// A directory could not be accessed.
    Io {
        /// The directory.
        path: String,
        /// The I/O error's message.
        message: String,
    },
    /// A path is not valid UTF-8 (shown lossily).
    NonUtf8Path(String),
}

impl CrawlError {
    /// The error message.
    pub fn to_string(&self) -> (r: String)
        ensures
            r@ == match *self {
                CrawlError::NotADirectory(p) => "path is not a directory: "@ + p@,
                CrawlError::Io { path, message } => "failed to access directory "@ + path@ + ": "@
                    + message@,
                CrawlError::NonUtf8Path(p) => "path is not valid UTF-8: "@ + p@,
            },
    {
        let mut out: Vec<char> = Vec::new();
        match self {
            CrawlError::NotADirectory(p) => {
                push_str(&mut out, "path is not a directory: ");
                push_str(&mut out, p.as_str());
            },
            CrawlError::Io { path, message } => {
                push_str(&mut out, "failed to access directory ");
                push_str(&mut out, path.as_str());
                push_str(&mut out, ": ");
                push_str(&mut out, message.as_str());
            },
            CrawlError::NonUtf8Path(p) => {
                push_str(&mut out, "path is not valid UTF-8: ");
                push_str(&mut out, p.as_str());
            },
        }
        string_of(&out)
    }
}

} // verus!

//! YAML/JSON block extraction from messy LLM output.
//!
//! LLMs wrap structured output in prose and fenced code blocks. These
//! helpers strip the wrapping and return the cleanest structured block as a
//! plain string; nothing is parsed.
//!
//! 1. A fenced block (tagged, then bare) gives the text between the first
//!    opening fence and the next fence line, dedented and trimmed.
//! 2. Without fences, a heuristic looks for YAML `key:` lines or the first
//!    balanced JSON `{`/`[` value.
//! 3. An opening fence that is never closed is `UnbalancedFence`.
//! 4. No structured content at all is `NoBlockFound`.

use vstd::prelude::*;

use crate::mermaid::join;
use crate::text::{
    chars_of, is_ws, lines, lower_seq, slice_chars, starts_with, string_of, trim, trim_start,
    views,
};

verus! {

broadcast use vstd::string::group_string_axioms;

/// Errors returned by `extract_yaml_block` / `extract_json_block`.
#[derive(Debug, PartialEq, Eq, Clone, Copy)]
pub enum ExtractError {
    /// No structured block (fenced or bare) could be found in the input text.
    NoBlockFound,
    /// An opening code fence was found but never closed.
    UnbalancedFence,
}

impl ExtractError {
    /// The error message.
    pub fn to_string(&self) -> (r: String)
        ensures
            r@ == match self {
                ExtractError::NoBlockFound => "no structured block found in text"@,
                ExtractError::UnbalancedFence => "unbalanced code fence in text"@,
            },
    {
        match self {
            ExtractError::NoBlockFound => "no structured block found in text".to_owned(),
            ExtractError::UnbalancedFence => "unbalanced code fence in text".to_owned(),
        }
    }
}

/// What `char::is_alphanumeric` returns (Unicode `Alphabetic` or `Numeric`).
pub uninterp spec fn unicode_alphanumeric(c: char) -> bool;

/// Trusted: `char::is_alphanumeric` gives the Unicode property named
/// `unicode_alphanumeric`; nothing more is claimed of it.
#[verifier::external_body]
fn is_alphanumeric(c: char) -> (r: bool)
    ensures
        r == unicode_alphanumeric(c),
{
    c.is_alphanumeric()
}

// ---------------------------------------------------------------------------
// fences
// ---------------------------------------------------------------------------

/// The tag of a fence line (trimmed text after the backticks), or `None`
/// when the line is not a fence.
pub open spec fn fence_tag(line: Seq<char>) -> Option<Seq<char>> {
    let t = trim_start(line);
    if starts_with(t, "```"@) {
        Some(trim(t.skip(3)))
    } else {
        None
    }
}

/// Whether `line` opens a fence whose tag equals `tag` ignoring ASCII case.
pub open spec fn opens_fence(line: Seq<char>, tag: Seq<char>) -> bool {
    match fence_tag(trim(line)) {
        Some(t) => t.len() == tag.len() && lower_seq(t) == lower_seq(tag),
        None => false,
    }
}

/// Index of the first line from `k` on that opens a fence tagged `tag`.
pub open spec fn open_fence_from(ls: Seq<Seq<char>>, tag: Seq<char>, k: int) -> Option<int>
    decreases ls.len() - k,
{
    if k < 0 || k >= ls.len() {
        None
    } else if opens_fence(ls[k], tag) {
        Some(k)
    } else {
        open_fence_from(ls, tag, k + 1)
    }
}

/// Index of the first line from `k` on that starts (after trimming) with
/// three backticks.
pub open spec fn close_fence_from(ls: Seq<Seq<char>>, k: int) -> Option<int>
    decreases ls.len() - k,
{
    if k < 0 || k >= ls.len() {
        None
    } else if starts_with(trim(ls[k]), "```"@) {
        Some(k)
    } else {
        close_fence_from(ls, k + 1)
    }
}

/// Number of leading whitespace characters.
pub open spec fn indent(l: Seq<char>) -> nat
    decreases l.len(),
{
    if l.len() > 0 && is_ws(l[0]) {
        1 + indent(l.drop_first())
    } else {
        0
    }
}

/// Smallest indent of the non-blank lines, if any.
pub open spec fn min_indent(ls: Seq<Seq<char>>) -> Option<nat>
    decreases ls.len(),
{
    if ls.len() == 0 {
        None
    } else {
        let rest = min_indent(ls.drop_last());
        let l = ls.last();
        if trim(l).len() == 0 {
            rest
        } else {
            match rest {
                None => Some(indent(l)),
                Some(m) => Some(
                    if indent(l) < m {
                        indent(l)
                    } else {
                        m
                    },
                ),
            }
        }
    }
}

/// Lines with `n` leading characters removed (blank lines emptied).
pub open spec fn dedent_lines(ls: Seq<Seq<char>>, n: nat) -> Seq<Seq<char>> {
    ls.map_values(
        |l: Seq<char>|
            if trim(l).len() == 0 {
                Seq::empty()
            } else if l.len() <= n {
                Seq::empty()
            } else {
                l.skip(n as int)
            },
    )
}

/// What the fenced-block dedent returns: the common indentation of the
/// non-blank lines removed, then trimmed.
pub open spec fn dedented(content: Seq<char>) -> Seq<char> {
    let ls = lines(content);
    let m = match min_indent(ls) {
        Some(m) => m,
        None => 0,
    };
    if m == 0 {
        trim(content)
    } else {
        trim(join(dedent_lines(ls, m), "\n"@))
    }
}

/// Outcome of looking for a fence tagged `tag`: `None` without an opening
/// fence, else the dedented body or `UnbalancedFence`.
pub open spec fn fenced(text: Seq<char>, tag: Seq<char>) -> Option<Result<Seq<char>, ExtractError>> {
    let ls = lines(text);
    match open_fence_from(ls, tag, 0) {
        None => None,
        Some(o) => match close_fence_from(ls, o + 1) {
            Some(c) => Some(Ok(dedented(join(ls.subrange(o + 1, c), "\n"@)))),
            None => Some(Err(ExtractError::UnbalancedFence)),
        },
    }
}

fn fence_tag_exec(line: &[char]) -> (r: Option<Vec<char>>)
    ensures
        match r {
            Some(t) => fence_tag(line@) == Some(t@),
            None => fence_tag(line@) is None,
        },
{
    let t = crate::text::trimmed_start(line);
    if crate::text::starts_with_str(&t, "```") {
        proof {
            reveal_strlit("```");
        }
        let n = t.len();
        let rest = slice_chars(&t, 3, n);
        assert(rest@ =~= t@.skip(3));
        Some(crate::text::trimmed(&rest))
    } else {
        None
    }
}

fn opens_fence_exec(line: &[char], tag: &[char]) -> (r: bool)
    ensures
        r == opens_fence(line@, tag@),
{
    let t = crate::text::trimmed(line);
    match fence_tag_exec(&t) {
        Some(ft) => {
            if ft.len() != tag.len() {
                return false;
            }
            let a = crate::text::lower_chars(&ft);
            let b = crate::text::lower_chars(tag);
            crate::text::eq_chars(&a, &b)
        },
        None => false,
    }
}

fn leading_ws(l: &[char]) -> (r: usize)
    ensures
        r == indent(l@),
        r <= l@.len(),
{
    let mut i: usize = 0;
    assert(l@.skip(0) =~= l@);
    while i < l.len() && crate::text::is_ws_char(l[i])
        invariant
            i <= l@.len(),
            indent(l@) == i + indent(l@.skip(i as int)),
        decreases l.len() - i,
    {
        assert(l@.skip(i as int).drop_first() =~= l@.skip(i + 1));
        i = i + 1;
    }
    i
}

fn join_views(ls: &Vec<Vec<char>>, lo: usize, hi: usize) -> (r: Vec<char>)
    requires
        lo <= hi <= ls@.len(),
    ensures
        r@ == join(views(ls@).subrange(lo as int, hi as int), "\n"@),
{
    let mut out: Vec<char> = Vec::new();
    let ghost vs = views(ls@);
    let mut i = lo;
    proof {
        reveal_strlit("\n");
    }
    while i < hi
        invariant
            lo <= i <= hi <= ls@.len(),
            vs == views(ls@),
            "\n"@ == seq!['\n'],
            out@ == join(vs.subrange(lo as int, i as int), "\n"@),
        decreases hi - i,
    {
        assert(vs.subrange(lo as int, i + 1).drop_last() =~= vs.subrange(lo as int, i as int));
        assert(vs[i as int] == ls@[i as int]@);
        if i > lo {
            out.push('\n');
        }
        crate::text::push_all(&mut out, &ls[i]);
        if i == lo {
            assert(out@ =~= join(vs.subrange(lo as int, i + 1), "\n"@));
        } else {
            assert(out@ =~= join(vs.subrange(lo as int, i as int), "\n"@) + "\n"@ + vs[i as int]);
        }
        i = i + 1;
    }
    out
}

fn dedent_block(content: &[char]) -> (r: Vec<char>)
    ensures
        r@ == dedented(content@),
{
    let ls = crate::text::lines_of(content);
    let ghost vs = views(ls@);
    let mut m: Option<usize> = None;
    let mut i: usize = 0;
    while i < ls.len()
        invariant
            i <= ls@.len(),
            vs == views(ls@),
            match m {
                Some(x) => min_indent(vs.take(i as int)) == Some(x as nat),
                None => min_indent(vs.take(i as int)) is None,
            },
        decreases ls.len() - i,
    {
        assert(vs.take(i + 1).drop_last() =~= vs.take(i as int));
        assert(vs[i as int] == ls@[i as int]@);
        if crate::text::trimmed(&ls[i]).len() > 0 {
            let d = leading_ws(&ls[i]);
            m = match m {
                None => Some(d),
                Some(x) => Some(
                    if d < x {
                        d
                    } else {
                        x
                    },
                ),
            };
        }
        i = i + 1;
    }
    assert(vs.take(ls@.len() as int) =~= vs);
    let mi: usize = match m {
        Some(x) => x,
        None => 0,
    };
    if mi == 0 {
        return crate::text::trimmed(content);
    }
    let mut out: Vec<Vec<char>> = Vec::new();
    let mut k: usize = 0;
    while k < ls.len()
        invariant
            k <= ls@.len(),
            vs == views(ls@),
            views(out@) =~= dedent_lines(vs, mi as nat).take(k as int),
        decreases ls.len() - k,
    {
        assert(vs[k as int] == ls@[k as int]@);
        let l = &ls[k];
        let piece = if crate::text::trimmed(l).len() == 0 || l.len() <= mi {
            Vec::new()
        } else {
            slice_chars(l, mi, l.len())
        };
        assert(piece@ =~= dedent_lines(vs, mi as nat)[k as int]);
        let ghost before = out@;
        out.push(piece);
        assert(views(out@) =~= views(before).push(piece@));
        k = k + 1;
    }
    let joined = join_views(&out, 0, out.len());
    assert(views(out@).subrange(0, out@.len() as int) =~= views(out@));
    assert(views(out@) =~= dedent_lines(vs, mi as nat));
    crate::text::trimmed(&joined)
}

fn extract_fenced(text: &[char], tag: &str) -> (r: Option<Result<Vec<char>, ExtractError>>)
    ensures
        match r {
            None => fenced(text@, tag@) is None,
            Some(Ok(v)) => fenced(text@, tag@) == Some(Ok::<Seq<char>, ExtractError>(v@)),
            Some(Err(e)) => fenced(text@, tag@) == Some(Err::<Seq<char>, ExtractError>(e)),
        },
{
    let ls = crate::text::lines_of(text);
    let ghost vs = views(ls@);
    let tg = chars_of(tag);
    let mut o: usize = 0;
    while o < ls.len() && !opens_fence_exec(&ls[o], &tg)
        invariant
            o <= ls@.len(),
            vs == views(ls@),
            tg@ == tag@,
            open_fence_from(vs, tag@, 0) == open_fence_from(vs, tag@, o as int),
        decreases ls.len() - o,
    {
        assert(vs[o as int] == ls@[o as int]@);
        o = o + 1;
    }
    if o == ls.len() {
        return None;
    }
    assert(vs[o as int] == ls@[o as int]@);
    let mut c = o + 1;
    while c < ls.len() && !crate::text::starts_with_str(&crate::text::trimmed(&ls[c]), "```")
        invariant
            o < c <= ls@.len(),
            vs == views(ls@),
            close_fence_from(vs, o + 1) == close_fence_from(vs, c as int),
        decreases ls.len() - c,
    {
        assert(vs[c as int] == ls@[c as int]@);
        c = c + 1;
    }
    if c == ls.len() {
        return Some(Err(ExtractError::UnbalancedFence));
    }
    assert(vs[c as int] == ls@[c as int]@);
    let body = join_views(&ls, o + 1, c);
    Some(Ok(dedent_block(&body)))
}

// ---------------------------------------------------------------------------
// bare heuristics
// ---------------------------------------------------------------------------

/// A key character: Unicode alphanumeric or `_`.
pub open spec fn is_key_char(c: char) -> bool {
    unicode_alphanumeric(c) || c == '_'
}

/// Length of the leading run of key characters.
pub open spec fn key_len(s: Seq<char>) -> nat
    decreases s.len(),
{
    if s.len() > 0 && is_key_char(s[0]) {
        1 + key_len(s.drop_first())
    } else {
        0
    }
}

/// A line of the form `key :` (leading whitespace, a key, optional
/// whitespace, a colon). The key must be followed by some other character.
pub open spec fn is_yaml_key_line(line: Seq<char>) -> bool {
    let rest = trim_start(line);
    let e = key_len(rest);
    0 < e < rest.len() && starts_with(trim_start(rest.skip(e as int)), ":"@)
}

fn yaml_key_line(line: &[char]) -> (r: bool)
    ensures
        r == is_yaml_key_line(line@),
{
    let rest = crate::text::trimmed_start(line);
    let mut e: usize = 0;
    assert(rest@.skip(0) =~= rest@);
    while e < rest.len() && (is_alphanumeric(rest[e]) || rest[e] == '_')
        invariant
            e <= rest@.len(),
            key_len(rest@) == e + key_len(rest@.skip(e as int)),
        decreases rest.len() - e,
    {
        assert(rest@.skip(e as int).drop_first() =~= rest@.skip(e + 1));
        e = e + 1;
    }
    if e == 0 || e == rest.len() {
        return false;
    }
    let n = rest.len();
    let after = slice_chars(&rest, e, n);
    assert(after@ =~= rest@.skip(e as int));
    let t = crate::text::trimmed_start(&after);
    crate::text::starts_with_str(&t, ":")
}

/// What the bare-YAML heuristic gives: the trimmed text when some line
/// looks like `key:`.
pub open spec fn bare_yaml(text: Seq<char>) -> Result<Seq<char>, ExtractError> {
    let t = trim(text);
    if t.len() == 0 {
        Err(ExtractError::NoBlockFound)
    } else if exists|i: int| 0 <= i < lines(t).len() && is_yaml_key_line(#[trigger] lines(t)[i]) {
        Ok(t)
    } else {
        Err(ExtractError::NoBlockFound)
    }
}

fn extract_bare_yaml(text: &[char]) -> (r: Result<Vec<char>, ExtractError>)
    ensures
        match r {
            Ok(v) => bare_yaml(text@) == Ok::<Seq<char>, ExtractError>(v@),
            Err(e) => bare_yaml(text@) == Err::<Seq<char>, ExtractError>(e),
        },
{
    let t = crate::text::trimmed(text);
    if t.len() == 0 {
        return Err(ExtractError::NoBlockFound);
    }
    let ls = crate::text::lines_of(&t);
    let mut i: usize = 0;
    while i < ls.len()
        invariant
            i <= ls@.len(),
            views(ls@) == lines(t@),
            t@ == trim(text@),
            t@.len() > 0,
            forall|j: int| 0 <= j < i ==> !is_yaml_key_line(#[trigger] lines(t@)[j]),
        decreases ls.len() - i,
    {
        assert(views(ls@)[i as int] == ls@[i as int]@);
        if yaml_key_line(&ls[i]) {
            assert(is_yaml_key_line(lines(t@)[i as int]));
            return Ok(t);
        }
        i = i + 1;
    }
    Err(ExtractError::NoBlockFound)
}

/// Scan a JSON value from index `k` with a bracket stack, a string flag and
/// an escape flag; `Some(e)` is the index of the bracket that empties the
/// stack, `None` a mismatch or the end of the text.
pub open spec fn json_end(s: Seq<char>, k: int, stack: Seq<char>, in_str: bool, esc: bool) -> Option<int>
    decreases s.len() - k,
{
    if k < 0 || k >= s.len() {
        None
    } else {
        let c = s[k];
        if in_str {
            if esc {
                json_end(s, k + 1, stack, true, false)
            } else if c == '\\' {
                json_end(s, k + 1, stack, true, true)
            } else if c == '"' {
                json_end(s, k + 1, stack, false, false)
            } else {
                json_end(s, k + 1, stack, true, false)
            }
        } else if c == '"' {
            json_end(s, k + 1, stack, true, false)
        } else if c == '{' || c == '[' {
            json_end(s, k + 1, stack.push(c), false, false)
        } else if c == '}' || c == ']' {
            if stack.len() == 0 || !((c == '}' && stack.last() == '{') || (c == ']' && stack.last()
                == '[')) {
                None
            } else if stack.len() == 1 {
                Some(k)
            } else {
                json_end(s, k + 1, stack.drop_last(), false, false)
            }
        } else {
            json_end(s, k + 1, stack, false, false)
        }
    }
}

/// Index of the first `{` or `[`.
pub open spec fn first_open(s: Seq<char>, k: int) -> Option<int>
    decreases s.len() - k,
{
    if k < 0 || k >= s.len() {
        None
    } else if s[k] == '{' || s[k] == '[' {
        Some(k)
    } else {
        first_open(s, k + 1)
    }
}

/// What the bare-JSON heuristic gives: the first balanced `{...}` or
/// `[...]` (string literals skipped), trimmed.
pub open spec fn bare_json(text: Seq<char>) -> Result<Seq<char>, ExtractError> {
    match first_open(text, 0) {
        None => Err(ExtractError::NoBlockFound),
        Some(st) => match json_end(text, st, Seq::empty(), false, false) {
            None => Err(ExtractError::NoBlockFound),
            Some(e) => Ok(trim(text.subrange(st, e + 1))),
        },
    }
}

proof fn lemma_json_end_bounds(s: Seq<char>, k: int, stack: Seq<char>, in_str: bool, esc: bool)
    ensures
        json_end(s, k, stack, in_str, esc) matches Some(e) ==> k <= e < s.len(),
    decreases s.len() - k,
{
    if 0 <= k < s.len() {
        let c = s[k];
        if in_str {
            if esc {
                lemma_json_end_bounds(s, k + 1, stack, true, false);
            } else if c == '\\' {
                lemma_json_end_bounds(s, k + 1, stack, true, true);
            } else if c == '"' {
                lemma_json_end_bounds(s, k + 1, stack, false, false);
            } else {
                lemma_json_end_bounds(s, k + 1, stack, true, false);
            }
        } else if c == '"' {
            lemma_json_end_bounds(s, k + 1, stack, true, false);
        } else if c == '{' || c == '[' {
            lemma_json_end_bounds(s, k + 1, stack.push(c), false, false);
        } else if c == '}' || c == ']' {
            lemma_json_end_bounds(s, k + 1, stack.drop_last(), false, false);
        } else {
            lemma_json_end_bounds(s, k + 1, stack, false, false);
        }
    }
}

fn extract_bare_json(text: &[char]) -> (r: Result<Vec<char>, ExtractError>)
    ensures
        match r {
            Ok(v) => bare_json(text@) == Ok::<Seq<char>, ExtractError>(v@),
            Err(e) => bare_json(text@) == Err::<Seq<char>, ExtractError>(e),
        },
{
    let n = text.len();
    let mut st: usize = 0;
    while st < n && text[st] != '{' && text[st] != '['
        invariant
            st <= n == text@.len(),
            first_open(text@, 0) == first_open(text@, st as int),
        decreases n - st,
    {
        st = st + 1;
    }
    if st == n {
        return Err(ExtractError::NoBlockFound);
    }
    let mut stack: Vec<char> = Vec::new();
    let mut in_string = false;
    let mut escape = false;
    let mut k = st;
    while k < n
        invariant
            st <= k <= n == text@.len(),
            first_open(text@, 0) == Some(st as int),
            !in_string ==> !escape,
            json_end(text@, st as int, Seq::empty(), false, false) == json_end(
                text@,
                k as int,
                stack@,
                in_string,
                escape,
            ),
        decreases n - k,
    {
        let c = text[k];
        if in_string {
            if escape {
                escape = false;
            } else if c == '\\' {
                escape = true;
            } else if c == '"' {
                in_string = false;
            }
        } else if c == '"' {
            in_string = true;
        } else if c == '{' || c == '[' {
            stack.push(c);
        } else if c == '}' || c == ']' {
            let sl = stack.len();
            if sl == 0 || !((c == '}' && stack[sl - 1] == '{') || (c == ']' && stack[sl - 1] == '[')) {
                return Err(ExtractError::NoBlockFound);
            }
            if sl == 1 {
                let v = slice_chars(text, st, k + 1);
                return Ok(crate::text::trimmed(&v));
            }
            let ghost before = stack@;
            stack.pop();
            assert(stack@ =~= before.drop_last());
        }
        k = k + 1;
    }
    Err(ExtractError::NoBlockFound)
}

// ---------------------------------------------------------------------------
// public entry points
// ---------------------------------------------------------------------------

/// What `extract_yaml_block` returns.
pub open spec fn yaml_block(text: Seq<char>) -> Result<Seq<char>, ExtractError> {
    match fenced(text, "yaml"@) {
        Some(r) => r,
        None => match fenced(text, Seq::empty()) {
            Some(r) => r,
            None => bare_yaml(text),
        },
    }
}

/// What `extract_json_block` returns.
pub open spec fn json_block(text: Seq<char>) -> Result<Seq<char>, ExtractError> {
    match fenced(text, "json"@) {
        Some(r) => r,
        None => match fenced(text, Seq::empty()) {
            Some(r) => r,
            None => bare_json(text),
        },
    }
}

fn to_string_result(r: Result<Vec<char>, ExtractError>) -> (o: Result<String, ExtractError>)
    ensures
        match r {
            Ok(v) => o matches Ok(s) && s@ == v@,
            Err(e) => o == Err::<String, ExtractError>(e),
        },
{
    match r {
        Ok(v) => Ok(string_of(&v)),
        Err(e) => Err(e),
    }
}

/// Extract a YAML block: a ```` ```yaml ```` fence, else a bare fence, else
/// bare YAML (some line looks like `key:`).
pub fn extract_yaml_block(text: &str) -> (r: Result<String, ExtractError>)
    ensures
        match r {
            Ok(s) => yaml_block(text@) == Ok::<Seq<char>, ExtractError>(s@),
            Err(e) => yaml_block(text@) == Err::<Seq<char>, ExtractError>(e),
        },
{
    let t = chars_of(text);
    proof {
        reveal_strlit("");
    }
    assert(""@ =~= Seq::<char>::empty());
    let found = match extract_fenced(&t, "yaml") {
        Some(r) => r,
        None => match extract_fenced(&t, "") {
            Some(r) => r,
            None => extract_bare_yaml(&t),
        },
    };
    to_string_result(found)
}

/// Extract a JSON block: a ```` ```json ```` fence, else a bare fence, else
/// the first balanced `{...}` or `[...]`.
pub fn extract_json_block(text: &str) -> (r: Result<String, ExtractError>)
    ensures
        match r {
            Ok(s) => json_block(text@) == Ok::<Seq<char>, ExtractError>(s@),
            Err(e) => json_block(text@) == Err::<Seq<char>, ExtractError>(e),
        },
{
    let t = chars_of(text);
    proof {
        reveal_strlit("");
    }
    assert(""@ =~= Seq::<char>::empty());
    let found = match extract_fenced(&t, "json") {
        Some(r) => r,
        None => match extract_fenced(&t, "") {
            Some(r) => r,
            None => extract_bare_json(&t),
        },
    };
    to_string_result(found)
}

} // verus!

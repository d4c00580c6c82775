//! Structural tutorial evaluation (no LLM).
//!
//! Scores a tutorial tree of markdown files: index and Mermaid maps,
//! setup/overview chapter, Mermaid validity, path citations, evidence
//! footers and internal links. Callers inject relative paths and contents.

use vstd::prelude::*;

use crate::mermaid::{join, mermaid_text, validate_issues};
use crate::text::{
    char_from, chars_of, contains, ends_with, find, find_from, lines, lower_seq, push_all,
    push_str, slice_chars, split_char, starts_with, string_of, trim, views,
};

verus! {

broadcast use vstd::string::group_string_axioms;

/// Default pass threshold for structural eval (0–100).
pub const DEFAULT_EVAL_PASS_THRESHOLD: i32 = 70;

/// Weight: index present.
pub const WEIGHT_INDEX_PRESENT: i32 = 20;

/// Weight: index contains at least one mermaid fence.
pub const WEIGHT_INDEX_MERMAID: i32 = 15;

/// Weight: setup or overview chapter present.
pub const WEIGHT_SETUP_OR_OVERVIEW: i32 = 15;

/// Weight: Mermaid validity ratio across all blocks.
pub const WEIGHT_MERMAID_VALID: i32 = 20;

/// Weight: chapters cite real-looking repo paths.
pub const WEIGHT_PATH_CITATIONS: i32 = 15;

/// Weight: evidence / grounding footer signals.
pub const WEIGHT_EVIDENCE_FOOTER: i32 = 10;

/// Weight: internal markdown links resolve within the tree.
pub const WEIGHT_LINKS_RESOLVE: i32 = 5;

/// One markdown file in a tutorial output tree.
#[derive(Clone, Debug, PartialEq, Eq)]
pub struct TutorialFile {
    /// Path relative to the tutorial root (e.g. `index.md`).
    pub path: String,
    /// Full file contents.
    pub content: String,
}

/// Individual check outcomes used for scoring and debugging.
#[derive(Clone, Debug, PartialEq, Eq)]
pub struct EvalChecks {
    /// `index.md` (any ASCII case) present.
    pub has_index: bool,
    /// Index body contains a mermaid fence.
    pub index_has_mermaid: bool,
    /// Setup or overview chapter detected by file name or H1.
    pub has_setup_or_overview: bool,
    /// Total mermaid fences found in the tree.
    pub mermaid_block_count: usize,
    /// Mermaid fences that validate after sanitize.
    pub mermaid_valid_count: usize,
    /// At least one chapter (non-index) cites a path-like token.
    pub has_path_citations: bool,
    /// At least one chapter has evidence/footer wording.
    pub has_evidence_footer: bool,
    /// Internal `.md` links that resolve.
    pub links_resolved: usize,
    /// Total internal markdown link targets found.
    pub links_total: usize,
}

/// Structural evaluation report.
#[derive(Clone, Debug, PartialEq, Eq)]
pub struct EvalReport {
    /// Aggregate score 0–100.
    pub score: i32,
    /// Whether `score` meets the pass threshold.
    pub passed: bool,
    /// Threshold used for `passed`.
    pub threshold: i32,
    /// Per-check results.
    pub checks: EvalChecks,
    /// Failure reasons (empty when every check has full credit).
    pub reasons: Vec<String>,
}

// ---------------------------------------------------------------------------
// paths
// ---------------------------------------------------------------------------

/// Push path segments onto a stack: empty and `.` segments vanish, `..`
/// pops (nothing when empty), others are pushed.
pub open spec fn push_segments(stack: Seq<Seq<char>>, parts: Seq<Seq<char>>) -> Seq<Seq<char>>
    decreases parts.len(),
{
    if parts.len() == 0 {
        stack
    } else {
        let s = push_segments(stack, parts.drop_last());
        let p = parts.last();
        if p.len() == 0 || p == "."@ {
            s
        } else if p == ".."@ {
            if s.len() == 0 {
                s
            } else {
                s.drop_last()
            }
        } else {
            s.push(p)
        }
    }
}

/// What `normalize_path` returns: `\` read as `/`, then `.`/`..` collapsed
/// and empty segments dropped.
pub open spec fn normalized(p: Seq<char>) -> Seq<char> {
    join(
        push_segments(Seq::empty(), split_char(crate::text::replace(p, "\\"@, "/"@), '/')),
        "/"@,
    )
}

fn push_segments_exec(stack: &mut Vec<Vec<char>>, parts: &Vec<Vec<char>>)
    ensures
        views(final(stack)@) == push_segments(views(old(stack)@), views(parts@)),
{
    let ghost init = views(stack@);
    let mut i: usize = 0;
    proof {
        reveal_strlit(".");
        reveal_strlit("..");
    }
    while i < parts.len()
        invariant
            i <= parts@.len(),
            views(stack@) == push_segments(init, views(parts@).take(i as int)),
            "."@ == seq!['.'],
            ".."@ == seq!['.', '.'],
        decreases parts.len() - i,
    {
        assert(views(parts@).take(i + 1).drop_last() =~= views(parts@).take(i as int));
        assert(views(parts@)[i as int] == parts@[i as int]@);
        let p = &parts[i];
        if p.len() == 0 || crate::text::eq_str(p, ".") {
        } else if crate::text::eq_str(p, "..") {
            if stack.len() > 0 {
                let ghost before = stack@;
                stack.pop();
                assert(views(stack@) =~= views(before).drop_last());
            }
        } else {
            let ghost before = stack@;
            let q = slice_chars(p, 0, p.len());
            assert(q@ =~= p@);
            stack.push(q);
            assert(views(stack@) =~= views(before).push(p@));
        }
        i = i + 1;
    }
    assert(views(parts@).take(parts@.len() as int) =~= views(parts@));
}

/// Join vectors with a one-character separator.
fn join_with(ls: &Vec<Vec<char>>, sep: char) -> (r: Vec<char>)
    ensures
        r@ == join(views(ls@), seq![sep]),
{
    let mut out: Vec<char> = Vec::new();
    let mut i: usize = 0;
    while i < ls.len()
        invariant
            i <= ls@.len(),
            out@ == join(views(ls@).take(i as int), seq![sep]),
        decreases ls.len() - i,
    {
        let ghost vs = views(ls@);
        assert(vs.take(i + 1).drop_last() =~= vs.take(i as int));
        assert(vs[i as int] == ls@[i as int]@);
        if i > 0 {
            out.push(sep);
        }
        push_all(&mut out, &ls[i]);
        if i == 0 {
            assert(out@ =~= join(vs.take(1), seq![sep]));
        } else {
            assert(out@ =~= join(vs.take(i as int), seq![sep]) + seq![sep] + vs[i as int]);
        }
        i = i + 1;
    }
    assert(views(ls@).take(ls@.len() as int) =~= views(ls@));
    out
}

fn normalize_path(path: &[char]) -> (r: Vec<char>)
    ensures
        r@ == normalized(path@),
{
    proof {
        reveal_strlit("\\");
        reveal_strlit("/");
    }
    let q = crate::text::replace_str(path, "\\", "/");
    let parts = crate::text::split_at_char(&q, '/');
    let mut stack: Vec<Vec<char>> = Vec::new();
    assert(views(stack@) =~= Seq::<Seq<char>>::empty());
    push_segments_exec(&mut stack, &parts);
    assert("/"@ =~= seq!['/']);
    join_with(&stack, '/')
}

/// The text after the last `/` (all of it when there is none).
pub open spec fn last_segment(p: Seq<char>) -> Seq<char>
    decreases p.len(),
{
    if p.len() == 0 || p.last() == '/' {
        Seq::empty()
    } else {
        last_segment(p.drop_last()).push(p.last())
    }
}

fn last_segment_chars(p: &[char]) -> (r: Vec<char>)
    ensures
        r@ == last_segment(p@),
{
    let n = p.len();
    let mut a = n;
    assert(p@.subrange(n as int, n as int) =~= Seq::<char>::empty());
    assert(p@.subrange(0, n as int) =~= p@);
    while a > 0 && p[a - 1] != '/'
        invariant
            a <= n == p@.len(),
            last_segment(p@) == last_segment(p@.subrange(0, a as int)) + p@.subrange(a as int, n as int),
        decreases a,
    {
        assert(p@.subrange(0, a as int).drop_last() =~= p@.subrange(0, a - 1));
        assert(p@.subrange(a - 1, n as int) =~= seq![p@[a - 1]] + p@.subrange(a as int, n as int));
        a = a - 1;
    }
    assert(last_segment(p@.subrange(0, a as int)) =~= Seq::<char>::empty());
    slice_chars(p, a, n)
}

/// An index page: the last segment of the normalized path is `index.md` in
/// any ASCII case.
pub open spec fn is_index_path(p: Seq<char>) -> bool {
    lower_seq(last_segment(normalized(p))) == "index.md"@
}

fn index_path(p: &[char]) -> (r: bool)
    ensures
        r == is_index_path(p@),
{
    let n = normalize_path(p);
    let name = last_segment_chars(&n);
    let low = crate::text::lower_chars(&name);
    crate::text::eq_str(&low, "index.md")
}

// ---------------------------------------------------------------------------
// chapter signals
// ---------------------------------------------------------------------------

/// `s` without its leading run of `c`.
pub open spec fn trim_start_char(s: Seq<char>, c: char) -> Seq<char>
    decreases s.len(),
{
    if s.len() > 0 && s[0] == c {
        trim_start_char(s.drop_first(), c)
    } else {
        s
    }
}

/// `s` without its trailing run of `c`.
pub open spec fn trim_end_char(s: Seq<char>, c: char) -> Seq<char>
    decreases s.len(),
{
    if s.len() > 0 && s.last() == c {
        trim_end_char(s.drop_last(), c)
    } else {
        s
    }
}

pub fn trim_start_char_exec(v: &[char], c: char) -> (r: Vec<char>)
    ensures
        r@ == trim_start_char(v@, c),
{
    let n = v.len();
    let mut a: usize = 0;
    assert(v@.subrange(0, n as int) =~= v@);
    while a < n && v[a] == c
        invariant
            a <= n == v@.len(),
            trim_start_char(v@, c) == trim_start_char(v@.subrange(a as int, n as int), c),
        decreases n - a,
    {
        assert(v@.subrange(a as int, n as int).drop_first() =~= v@.subrange(a + 1, n as int));
        a = a + 1;
    }
    slice_chars(v, a, n)
}

pub fn trim_end_char_exec(v: &[char], c: char) -> (r: Vec<char>)
    ensures
        r@ == trim_end_char(v@, c),
{
    let n = v.len();
    let mut b: usize = n;
    assert(v@.subrange(0, n as int) =~= v@);
    while b > 0 && v[b - 1] == c
        invariant
            b <= n == v@.len(),
            trim_end_char(v@, c) == trim_end_char(v@.subrange(0, b as int), c),
        decreases b,
    {
        assert(v@.subrange(0, b as int).drop_last() =~= v@.subrange(0, b - 1));
        b = b - 1;
    }
    slice_chars(v, 0, b)
}

/// Index of the first line that starts with `# `.
pub open spec fn first_heading(ls: Seq<Seq<char>>) -> Option<Seq<char>>
    decreases ls.len(),
{
    if ls.len() == 0 {
        None
    } else if starts_with(ls[0], "# "@) {
        Some(ls[0])
    } else {
        first_heading(ls.drop_first())
    }
}

/// Mentions `setup` or `overview`.
pub open spec fn mentions_setup(t: Seq<char>) -> bool {
    contains(t, "setup"@) || contains(t, "overview"@)
}

/// A setup or overview chapter: by file name, or by its first `# ` heading.
pub open spec fn is_setup_or_overview(path: Seq<char>, content: Seq<char>) -> bool {
    mentions_setup(last_segment(lower_seq(normalized(path)))) || match first_heading(lines(content)) {
        Some(h) => mentions_setup(lower_seq(trim(trim_start_char(h, '#')))),
        None => false,
    }
}

fn setup_or_overview(path: &[char], content: &[char]) -> (r: bool)
    ensures
        r == is_setup_or_overview(path@, content@),
{
    let n = normalize_path(path);
    let low = crate::text::lower_chars(&n);
    let name = last_segment_chars(&low);
    if crate::text::contains_str(&name, "setup") || crate::text::contains_str(&name, "overview") {
        return true;
    }
    let ls = crate::text::lines_of(content);
    let ghost vls = views(ls@);
    let mut i: usize = 0;
    assert(vls.skip(0) =~= vls);
    while i < ls.len()
        invariant
            i <= ls@.len(),
            vls == views(ls@),
            vls == lines(content@),
            !mentions_setup(last_segment(lower_seq(normalized(path@)))),
            first_heading(vls) == first_heading(vls.skip(i as int)),
        decreases ls.len() - i,
    {
        assert(vls.skip(i as int)[0] == ls@[i as int]@);
        if crate::text::starts_with_str(&ls[i], "# ") {
            assert(vls.skip(i as int).len() > 0);
            assert(first_heading(vls.skip(i as int)) == Some(ls@[i as int]@));
            let h = trim_start_char_exec(&ls[i], '#');
            let t = crate::text::trimmed(&h);
            let lt = crate::text::lower_chars(&t);
            let res = crate::text::contains_str(&lt, "setup") || crate::text::contains_str(
                &lt,
                "overview",
            );
            assert(!mentions_setup(last_segment(lower_seq(normalized(path@)))));
            assert(first_heading(lines(content@)) == Some(ls@[i as int]@));
            assert(res == mentions_setup(lower_seq(trim(trim_start_char(ls@[i as int]@, '#')))));
            return res;
        }
        assert(vls.skip(i as int).drop_first() =~= vls.skip(i + 1));
        i = i + 1;
    }
    false
}

/// Bodies of complete ```` ```mermaid ```` fences, in order.
pub open spec fn mermaid_bodies(r: Seq<char>) -> Seq<Seq<char>>
    decreases r.len(),
{
    match find(r, "```mermaid"@) {
        None => Seq::empty(),
        Some(st) => {
            proof {
                crate::text::lemma_find_from(r, "```mermaid"@, 0);
                reveal_strlit("```mermaid");
            }
            let after = r.skip(st + 10);
            match char_from(after, '\n', 0) {
                None => Seq::empty(),
                Some(i) => {
                    proof {
                        crate::text::lemma_char_from(after, '\n', 0);
                    }
                    let afl = after.skip(i + 1);
                    match find(afl, "```"@) {
                        None => Seq::empty(),
                        Some(e) => {
                            proof {
                                crate::text::lemma_find_from(afl, "```"@, 0);
                                reveal_strlit("```");
                            }
                            seq![afl.take(e)] + mermaid_bodies(afl.skip(e + 3))
                        },
                    }
                },
            }
        },
    }
}

fn extract_mermaid_bodies(content: &[char]) -> (r: Vec<Vec<char>>)
    ensures
        views(r@) == mermaid_bodies(content@),
{
    let mut out: Vec<Vec<char>> = Vec::new();
    let mut rest: Vec<char> = slice_chars(content, 0, content.len());
    assert(rest@ =~= content@);
    proof {
        reveal_strlit("```mermaid");
        reveal_strlit("```");
    }
    loop
        invariant
            views(out@) + mermaid_bodies(rest@) == mermaid_bodies(content@),
            "```mermaid"@.len() == 10,
            "```"@.len() == 3,
        decreases rest@.len(),
    {
        let ghost r0 = rest@;
        match crate::text::find_str(&rest, "```mermaid", 0) {
            None => {
                assert(views(out@) + Seq::<Seq<char>>::empty() =~= views(out@));
                return out;
            },
            Some(st) => {
                proof {
                    crate::text::lemma_find_from(rest@, "```mermaid"@, 0);
                }
                let n = rest.len();
                let after = slice_chars(&rest, st + 10, n);
                assert(after@ =~= rest@.skip(st + 10));
                match crate::text::find_char(&after, '\n', 0) {
                    None => {
                        assert(views(out@) + Seq::<Seq<char>>::empty() =~= views(out@));
                        return out;
                    },
                    Some(i) => {
                        proof {
                            crate::text::lemma_char_from(after@, '\n', 0);
                        }
                        let an = after.len();
                        let afl = slice_chars(&after, i + 1, an);
                        assert(afl@ =~= after@.skip(i + 1));
                        match crate::text::find_str(&afl, "```", 0) {
                            None => {
                                assert(views(out@) + Seq::<Seq<char>>::empty() =~= views(out@));
                                return out;
                            },
                            Some(e) => {
                                proof {
                                    crate::text::lemma_find_from(afl@, "```"@, 0);
                                }
                                let ghost prev = views(out@);
                                let body = slice_chars(&afl, 0, e);
                                assert(body@ =~= afl@.take(e as int));
                                out.push(body);
                                let fl = afl.len();
                                let next = slice_chars(&afl, e + 3, fl);
                                assert(next@ =~= afl@.skip(e + 3));
                                assert(views(out@) =~= prev.push(body@));
                                assert(views(out@) + mermaid_bodies(next@) =~= prev + mermaid_bodies(r0));
                                rest = next;
                            },
                        }
                    },
                }
            },
        }
    }
}

/// A character allowed in a cited repository path.
pub open spec fn is_path_char(c: char) -> bool {
    crate::text::is_alnum(c) || c == '/' || c == '_' || c == '-' || c == '.'
}

/// A token that looks like a repository path: no spaces, no `://`, a `/`
/// or a dotted last segment, only path characters, and not ending in `.`.
pub open spec fn looks_like_repo_path(s: Seq<char>) -> bool {
    &&& s.len() > 0
    &&& !s.contains(' ')
    &&& !contains(s, "://"@)
    &&& (s.contains('/') || last_segment(s).contains('.'))
    &&& forall|i: int| 0 <= i < s.len() ==> is_path_char(#[trigger] s[i])
    &&& s.last() != '.'
}

fn repo_path_like(s: &[char]) -> (r: bool)
    ensures
        r == looks_like_repo_path(s@),
{
    if s.len() == 0 || crate::text::has_char(s, ' ') {
        return false;
    }
    if crate::text::contains_str(s, "://") {
        return false;
    }
    let seg = last_segment_chars(s);
    let shape = crate::text::has_char(s, '/') || crate::text::has_char(&seg, '.');
    let mut all = true;
    let mut i: usize = 0;
    while i < s.len()
        invariant
            i <= s@.len(),
            all == (forall|j: int| 0 <= j < i ==> is_path_char(#[trigger] s@[j])),
        decreases s.len() - i,
    {
        let c = s[i];
        if !(crate::text::is_alnum_char(c) || c == '/' || c == '_' || c == '-' || c == '.') {
            all = false;
        }
        i = i + 1;
    }
    shape && all && s[s.len() - 1] != '.'
}

/// State of the backtick scan: found, inside a tick span, current span.
pub struct TickScan {
    pub found: bool,
    pub in_tick: bool,
    pub cur: Seq<char>,
}

/// Scan for a backticked path-like token.
pub open spec fn tick_scan(s: Seq<char>) -> TickScan
    decreases s.len(),
{
    if s.len() == 0 {
        TickScan { found: false, in_tick: false, cur: Seq::empty() }
    } else {
        let st = tick_scan(s.drop_last());
        let c = s.last();
        if st.found {
            st
        } else if c == '`' {
            if st.in_tick {
                if looks_like_repo_path(st.cur) {
                    TickScan { found: true, ..st }
                } else {
                    TickScan { found: false, in_tick: false, cur: Seq::empty() }
                }
            } else {
                TickScan { in_tick: true, ..st }
            }
        } else if st.in_tick {
            TickScan { cur: st.cur.push(c), ..st }
        } else {
            st
        }
    }
}

/// A line that is a bare path (list bullets and backticks removed).
pub open spec fn is_path_line(l: Seq<char>) -> bool {
    looks_like_repo_path(trim_end_char(trim_start_char(trim(trim_start_char(trim(l), '-')), '`'), '`'))
}

/// A chapter cites a path: a backticked path-like token, or a line that is
/// a bare path.
pub open spec fn has_path_citation(content: Seq<char>) -> bool {
    tick_scan(content).found || exists|i: int|
        0 <= i < lines(content).len() && is_path_line(#[trigger] lines(content)[i])
}

fn path_line(l: &[char]) -> (r: bool)
    ensures
        r == is_path_line(l@),
{
    let a = crate::text::trimmed(l);
    let b = trim_start_char_exec(&a, '-');
    let c = crate::text::trimmed(&b);
    let d = trim_start_char_exec(&c, '`');
    let e = trim_end_char_exec(&d, '`');
    repo_path_like(&e)
}

fn path_citation(content: &[char]) -> (r: bool)
    ensures
        r == has_path_citation(content@),
{
    let mut in_tick = false;
    let mut cur: Vec<char> = Vec::new();
    let mut i: usize = 0;
    while i < content.len()
        invariant
            i <= content@.len(),
            ({
                let st = tick_scan(content@.take(i as int));
                &&& !st.found
                &&& in_tick == st.in_tick
                &&& cur@ == st.cur
            }),
        decreases content.len() - i,
    {
        assert(content@.take(i + 1).drop_last() =~= content@.take(i as int));
        let ch = content[i];
        if ch == '`' {
            if in_tick {
                if repo_path_like(&cur) {
                    proof {
                        lemma_tick_found_stays(content@, i + 1);
                    }
                    return true;
                }
                cur = Vec::new();
            }
            in_tick = !in_tick;
        } else if in_tick {
            cur.push(ch);
        }
        i = i + 1;
    }
    assert(content@.take(content@.len() as int) =~= content@);
    let ls = crate::text::lines_of(content);
    let mut k: usize = 0;
    while k < ls.len()
        invariant
            k <= ls@.len(),
            views(ls@) == lines(content@),
            forall|j: int| 0 <= j < k ==> !is_path_line(#[trigger] lines(content@)[j]),
        decreases ls.len() - k,
    {
        assert(views(ls@)[k as int] == ls@[k as int]@);
        if path_line(&ls[k]) {
            return true;
        }
        k = k + 1;
    }
    false
}

proof fn lemma_tick_found_stays(s: Seq<char>, k: int)
    requires
        0 <= k <= s.len(),
        tick_scan(s.take(k)).found,
    ensures
        tick_scan(s).found,
    decreases s.len() - k,
{
    if k < s.len() {
        assert(s.take(k + 1).drop_last() =~= s.take(k));
        lemma_tick_found_stays(s, k + 1);
    } else {
        assert(s.take(k) =~= s);
    }
}

/// Evidence or grounding wording (ASCII case-insensitive).
pub open spec fn has_evidence_signal(content: Seq<char>) -> bool {
    let l = lower_seq(content);
    contains(l, "evidence"@) || contains(l, "key files"@) || contains(l, "grounded"@) || contains(
        l,
        "where this was inferred"@,
    ) || contains(l, "paths cited"@)
}

fn evidence_signal(content: &[char]) -> (r: bool)
    ensures
        r == has_evidence_signal(content@),
{
    let l = crate::text::lower_chars(content);
    crate::text::contains_str(&l, "evidence") || crate::text::contains_str(&l, "key files")
        || crate::text::contains_str(&l, "grounded") || crate::text::contains_str(
        &l,
        "where this was inferred",
    ) || crate::text::contains_str(&l, "paths cited")
}

// ---------------------------------------------------------------------------
// links
// ---------------------------------------------------------------------------

/// A link target without its `#anchor`, trimmed.
pub open spec fn link_target(t: Seq<char>) -> Seq<char> {
    trim(split_char(t, '#')[0])
}

/// Internal `.md` link targets of `[text](target)` spans from index `i` on.
pub open spec fn links_from(s: Seq<char>, i: int) -> Seq<Seq<char>>
    decreases s.len() - i,
{
    if i < 0 || i >= s.len() {
        Seq::empty()
    } else if s[i] == '[' && find_from(s, "]("@, i) is Some && char_from(
        s,
        ')',
        find_from(s, "]("@, i)->0 + 2,
    ) is Some {
        let m = find_from(s, "]("@, i)->0;
        let e = char_from(s, ')', m + 2)->0;
        proof {
            crate::text::lemma_find_from(s, "]("@, i);
            crate::text::lemma_char_from(s, ')', m + 2);
        }
        let t = link_target(s.subrange(m + 2, e));
        (if ends_with(t, ".md"@) && !contains(t, "://"@) {
            seq![t]
        } else {
            Seq::empty()
        }) + links_from(s, e + 1)
    } else {
        links_from(s, i + 1)
    }
}

/// Internal `.md` link targets of a document.
pub open spec fn internal_links(content: Seq<char>) -> Seq<Seq<char>> {
    links_from(content, 0)
}

fn extract_internal_md_links(content: &[char]) -> (r: Vec<Vec<char>>)
    ensures
        views(r@) == internal_links(content@),
{
    let mut out: Vec<Vec<char>> = Vec::new();
    let mut i: usize = 0;
    let n = content.len();
    proof {
        reveal_strlit("](");
    }
    while i < n
        invariant
            i <= n == content@.len(),
            "]("@.len() == 2,
            views(out@) + links_from(content@, i as int) == internal_links(content@),
        decreases n - i,
    {
        let ghost prev = views(out@);
        if content[i] == '[' {
            proof {
                crate::text::lemma_find_from(content@, "]("@, i as int);
            }
            match crate::text::find_str(content, "](", i) {
                Some(mid) => {
                    let start = mid + 2;
                    proof {
                        crate::text::lemma_char_from(content@, ')', start as int);
                    }
                    match crate::text::find_char(content, ')', start) {
                        Some(end) => {
                            let raw = slice_chars(content, start, end);
                            let pieces = crate::text::split_at_char(&raw, '#');
                            proof {
                                crate::mermaid::lemma_split_nonempty(raw@, '#');
                            }
                            assert(views(pieces@)[0] == pieces@[0]@);
                            let t = crate::text::trimmed(&pieces[0]);
                            if crate::text::ends_with_str(&t, ".md") && !crate::text::contains_str(
                                &t,
                                "://",
                            ) {
                                out.push(t);
                                assert(views(out@) =~= prev.push(t@));
                            }
                            assert(views(out@) + links_from(content@, end + 1) =~= prev
                                + links_from(content@, i as int));
                            i = end + 1;
                        },
                        None => {
                            i = i + 1;
                        },
                    }
                },
                None => {
                    i = i + 1;
                },
            }
        } else {
            i = i + 1;
        }
    }
    assert(views(out@) + Seq::<Seq<char>>::empty() =~= views(out@));
    out
}

/// Base directory of a normalized path: everything before its last `/`.
pub open spec fn base_dir(f: Seq<char>) -> Seq<char> {
    if f.contains('/') {
        f.take(f.len() - last_segment(f).len() - 1)
    } else {
        Seq::empty()
    }
}

/// `last_segment` is a suffix; when `/` occurs it is preceded by one.
pub proof fn lemma_last_segment(p: Seq<char>)
    ensures
        last_segment(p).len() <= p.len(),
        last_segment(p) == p.skip(p.len() - last_segment(p).len()),
        p.contains('/') ==> last_segment(p).len() < p.len() && p[p.len() - last_segment(p).len()
            - 1] == '/',
        !p.contains('/') ==> last_segment(p) == p,
    decreases p.len(),
{
    if p.len() > 0 {
        if p.last() == '/' {
            assert(p.skip(p.len() as int) =~= Seq::<char>::empty());
        } else {
            lemma_last_segment(p.drop_last());
            assert(p.drop_last().skip(p.drop_last().len() - last_segment(p.drop_last()).len()).push(
                p.last(),
            ) =~= p.skip(p.len() - last_segment(p).len()));
            if p.contains('/') {
                let k = choose|k: int| 0 <= k < p.len() && p[k] == '/';
                assert(p.drop_last()[k] == '/');
            }
            if !p.drop_last().contains('/') {
                assert(!p.contains('/')) by {
                    if p.contains('/') {
                        let k = choose|k: int| 0 <= k < p.len() && p[k] == '/';
                        assert(p.drop_last()[k] == '/');
                    }
                }
                assert(p.drop_last().push(p.last()) =~= p);
            }
        }
    } else {
        assert(p.skip(0) =~= p);
    }
}

/// Resolve a link target relative to the page that holds it.
pub open spec fn resolved_link(from: Seq<char>, target: Seq<char>) -> Seq<char> {
    let f = normalized(from);
    let t = normalized(target);
    if starts_with(t, "/"@) {
        trim_start_char(t, '/')
    } else {
        let base = base_dir(f);
        let init = if base.len() == 0 {
            Seq::empty()
        } else {
            split_char(base, '/')
        };
        join(push_segments(init, split_char(t, '/')), "/"@)
    }
}

fn resolve_link(from_path: &[char], target: &[char]) -> (r: Vec<char>)
    ensures
        r@ == resolved_link(from_path@, target@),
{
    let f = normalize_path(from_path);
    let t = normalize_path(target);
    proof {
        reveal_strlit("/");
    }
    assert("/"@ =~= seq!['/']);
    if crate::text::starts_with_str(&t, "/") {
        return trim_start_char_exec(&t, '/');
    }
    let seg = last_segment_chars(&f);
    proof {
        lemma_last_segment(f@);
    }
    let base = if crate::text::has_char(&f, '/') {
        slice_chars(&f, 0, f.len() - seg.len() - 1)
    } else {
        Vec::new()
    };
    assert(base@ =~= base_dir(f@));
    let mut stack: Vec<Vec<char>> = if base.len() == 0 {
        Vec::new()
    } else {
        crate::text::split_at_char(&base, '/')
    };
    assert(base@.len() == 0 ==> views(stack@) =~= Seq::<Seq<char>>::empty());
    let parts = crate::text::split_at_char(&t, '/');
    push_segments_exec(&mut stack, &parts);
    join_with(&stack, '/')
}

// ---------------------------------------------------------------------------
// evaluation
// ---------------------------------------------------------------------------

/// Sum of a per-file quantity.
pub open spec fn file_sum(files: Seq<TutorialFile>, f: spec_fn(TutorialFile) -> nat) -> nat
    decreases files.len(),
{
    if files.len() == 0 {
        0
    } else {
        file_sum(files.drop_last(), f) + f(files.last())
    }
}

/// Number of bodies that validate after sanitizing.
pub open spec fn valid_count(bodies: Seq<Seq<char>>) -> nat
    decreases bodies.len(),
{
    if bodies.len() == 0 {
        0
    } else {
        valid_count(bodies.drop_last()) + if validate_issues(mermaid_text(bodies.last())).len()
            == 0 {
            1nat
        } else {
            0
        }
    }
}

/// Mermaid blocks of a file.
pub open spec fn block_count(f: TutorialFile) -> nat {
    mermaid_bodies(f.content@).len()
}

/// Mermaid blocks of a file that validate after sanitizing.
pub open spec fn valid_block_count(f: TutorialFile) -> nat {
    valid_count(mermaid_bodies(f.content@))
}

/// Some file of the tree has this normalized path.
pub open spec fn tree_has_path(files: Seq<TutorialFile>, p: Seq<char>) -> bool {
    exists|j: int| 0 <= j < files.len() && normalized(#[trigger] files[j].path@) == p
}

/// Link targets of `from` that resolve to a file of the tree.
pub open spec fn resolved_count(files: Seq<TutorialFile>, from: Seq<char>, ts: Seq<Seq<char>>) -> nat
    decreases ts.len(),
{
    if ts.len() == 0 {
        0
    } else {
        resolved_count(files, from, ts.drop_last()) + if tree_has_path(
            files,
            resolved_link(from, ts.last()),
        ) {
            1nat
        } else {
            0
        }
    }
}

/// Internal links of a file.
pub open spec fn link_count(f: TutorialFile) -> nat {
    internal_links(f.content@).len()
}

/// First file whose path is an index page.
pub open spec fn index_of(files: Seq<TutorialFile>) -> Option<int>
    decreases files.len(),
{
    if files.len() == 0 {
        None
    } else if is_index_path(files[0].path@) {
        Some(0int)
    } else {
        match index_of(files.drop_first()) {
            Some(i) => Some(i + 1),
            None => None,
        }
    }
}

/// The check results `evaluate_tutorial` reports.
pub open spec fn eval_checks(files: Seq<TutorialFile>) -> EvalChecks {
    EvalChecks {
        has_index: index_of(files) is Some,
        index_has_mermaid: match index_of(files) {
            Some(i) => block_count(files[i]) > 0,
            None => false,
        },
        has_setup_or_overview: exists|i: int|
            0 <= i < files.len() && is_setup_or_overview(
                #[trigger] files[i].path@,
                files[i].content@,
            ),
        mermaid_block_count: file_sum(files, |f: TutorialFile| block_count(f)) as usize,
        mermaid_valid_count: file_sum(files, |f: TutorialFile| valid_block_count(f)) as usize,
        has_path_citations: exists|i: int|
            0 <= i < files.len() && !is_index_path(#[trigger] files[i].path@) && has_path_citation(
                files[i].content@,
            ),
        has_evidence_footer: exists|i: int|
            0 <= i < files.len() && !is_index_path(#[trigger] files[i].path@) && has_evidence_signal(
                files[i].content@,
            ),
        links_resolved: file_sum(
            files,
            |f: TutorialFile| resolved_count(files, f.path@, internal_links(f.content@)),
        ) as usize,
        links_total: file_sum(files, |f: TutorialFile| link_count(f)) as usize,
    }
}

/// `w * num / den` rounded to the nearest integer, halves up.
pub open spec fn ratio_points(w: int, num: nat, den: nat) -> int {
    (2 * w * num + den) / ((2 * den) as int)
}

/// Every file is an index page (there are no chapters).
pub open spec fn no_chapters(files: Seq<TutorialFile>) -> bool {
    forall|i: int| 0 <= i < files.len() ==> is_index_path(#[trigger] files[i].path@)
}

/// The score before clamping to `0..=100`.
pub open spec fn raw_score(c: EvalChecks, no_ch: bool) -> int {
    (if c.has_index {
        20int
    } else {
        0
    }) + (if c.index_has_mermaid {
        15int
    } else {
        0
    }) + (if c.has_setup_or_overview {
        15int
    } else {
        0
    }) + (if c.mermaid_block_count == 0 {
        0
    } else {
        ratio_points(20, c.mermaid_valid_count as nat, c.mermaid_block_count as nat)
    }) + (if c.has_path_citations {
        15int
    } else {
        0
    }) + (if c.has_evidence_footer {
        10int
    } else {
        0
    }) + (if c.links_total == 0 {
        if no_ch {
            5int
        } else {
            0
        }
    } else {
        ratio_points(5, c.links_resolved as nat, c.links_total as nat)
    })
}

/// The reasons `evaluate_tutorial` reports, in order.
pub open spec fn eval_reasons(c: EvalChecks, no_ch: bool) -> Seq<Seq<char>> {
    reasons_head(c) + reasons_mermaid(c) + reasons_mid(c) + reasons_links(c, no_ch)
}

/// Reasons from the index and setup checks.
pub open spec fn reasons_head(c: EvalChecks) -> Seq<Seq<char>> {
    (if c.has_index {
        Seq::empty()
    } else {
        seq!["missing index.md"@]
    }) + (if c.index_has_mermaid {
        Seq::empty()
    } else {
        seq!["index lacks mermaid maps"@]
    }) + (if c.has_setup_or_overview {
        Seq::empty()
    } else {
        seq!["no setup/overview chapter"@]
    })
}

/// Reason from the mermaid validity check.
pub open spec fn reasons_mermaid(c: EvalChecks) -> Seq<Seq<char>> {
    if c.mermaid_block_count == 0 {
        seq!["no mermaid blocks in tutorial"@]
    } else if c.mermaid_valid_count < c.mermaid_block_count {
        seq![
            "invalid mermaid blocks: "@ + crate::text::decimal(c.mermaid_valid_count as nat) + "/"@
                + crate::text::decimal(c.mermaid_block_count as nat) + " valid"@,
        ]
    } else {
        Seq::empty()
    }
}

/// Reasons from the citation and evidence checks.
pub open spec fn reasons_mid(c: EvalChecks) -> Seq<Seq<char>> {
    (if c.has_path_citations {
        Seq::empty()
    } else {
        seq!["chapters lack path citations"@]
    }) + (if c.has_evidence_footer {
        Seq::empty()
    } else {
        seq!["missing evidence/footer signals"@]
    })
}

/// Reason from the link check.
pub open spec fn reasons_links(c: EvalChecks, no_ch: bool) -> Seq<Seq<char>> {
    if c.links_total == 0 {
        if no_ch {
            Seq::empty()
        } else {
            seq!["no internal markdown links found"@]
        }
    } else if c.links_resolved < c.links_total {
        seq![
            "broken internal links: "@ + crate::text::decimal(c.links_resolved as nat) + "/"@
                + crate::text::decimal(c.links_total as nat) + " resolve"@,
        ]
    } else {
        Seq::empty()
    }
}

proof fn lemma_index_of(files: Seq<TutorialFile>, i: int)
    requires
        0 <= i <= files.len(),
        forall|j: int| 0 <= j < i ==> !is_index_path(#[trigger] files[j].path@),
    ensures
        i < files.len() && is_index_path(files[i].path@) ==> index_of(files) == Some(i),
        i == files.len() ==> index_of(files) is None,
    decreases i,
{
    if i > 0 {
        let t = files.drop_first();
        assert forall|j: int| 0 <= j < i - 1 implies !is_index_path(#[trigger] t[j].path@) by {
            assert(t[j] == files[j + 1]);
        }
        lemma_index_of(t, i - 1);
        assert(!is_index_path(files[0].path@));
    }
}

proof fn lemma_file_sum_prefix(files: Seq<TutorialFile>, f: spec_fn(TutorialFile) -> nat, i: int)
    requires
        0 <= i <= files.len(),
    ensures
        file_sum(files.take(i), f) <= file_sum(files, f),
    decreases files.len() - i,
{
    if i < files.len() {
        lemma_file_sum_prefix(files, f, i + 1);
        assert(files.take(i + 1).drop_last() =~= files.take(i));
    } else {
        assert(files.take(i) =~= files);
    }
}

proof fn lemma_file_sum_le(
    files: Seq<TutorialFile>,
    f: spec_fn(TutorialFile) -> nat,
    g: spec_fn(TutorialFile) -> nat,
)
    requires
        forall|i: int| 0 <= i < files.len() ==> f(#[trigger] files[i]) <= g(files[i]),
    ensures
        file_sum(files, f) <= file_sum(files, g),
    decreases files.len(),
{
    if files.len() > 0 {
        let p = files.drop_last();
        assert forall|i: int| 0 <= i < p.len() implies f(#[trigger] p[i]) <= g(p[i]) by {
            assert(p[i] == files[i]);
        }
        lemma_file_sum_le(p, f, g);
        assert(f(files[files.len() - 1]) <= g(files[files.len() - 1]));
    }
}

proof fn lemma_valid_le(b: Seq<Seq<char>>)
    ensures
        valid_count(b) <= b.len(),
    decreases b.len(),
{
    if b.len() > 0 {
        lemma_valid_le(b.drop_last());
    }
}

proof fn lemma_resolved_le(files: Seq<TutorialFile>, from: Seq<char>, ts: Seq<Seq<char>>)
    ensures
        resolved_count(files, from, ts) <= ts.len(),
    decreases ts.len(),
{
    if ts.len() > 0 {
        lemma_resolved_le(files, from, ts.drop_last());
    }
}

proof fn lemma_ratio_points(w: int, num: nat, den: nat)
    requires
        0 <= w <= 20,
        num <= den,
        den > 0,
    ensures
        0 <= ratio_points(w, num, den) <= w,
{
    assert(0 <= 2 * w * num + den) by (nonlinear_arith)
        requires
            0 <= w,
            0 <= num,
            den > 0,
    ;
    assert((2 * w * num + den) / ((2 * den) as int) <= w) by (nonlinear_arith)
        requires
            0 <= w <= 20,
            num <= den,
            den > 0,
    ;
}

fn ratio_points_exec(w: u128, num: usize, den: usize) -> (r: i32)
    requires
        0 <= w <= 20,
        num <= den,
        den > 0,
    ensures
        r == ratio_points(w as int, num as nat, den as nat),
        0 <= r <= w,
{
    proof {
        lemma_ratio_points(w as int, num as nat, den as nat);
    }
    let n = num as u128;
    let d = den as u128;
    assert(2 * w * n <= 40 * 0xffff_ffff_ffff_ffffu128) by (nonlinear_arith)
        requires
            w <= 20,
            n <= 0xffff_ffff_ffff_ffffu128,
    ;
    let v = (2 * w * n + d) / (2 * d);
    v as i32
}

fn find_index(files: &[TutorialFile]) -> (r: usize)
    ensures
        r <= files@.len(),
        r < files@.len() <==> index_of(files@) is Some,
        r < files@.len() ==> index_of(files@) == Some(r as int),
{
    let ghost fs = files@;
    let mut idx: usize = 0;
    while idx < files.len() && !index_path(&chars_of(files[idx].path.as_str()))
        invariant
            idx <= fs.len(),
            fs == files@,
            forall|j: int| 0 <= j < idx ==> !is_index_path(#[trigger] fs[j].path@),
        decreases files.len() - idx,
    {
        idx = idx + 1;
    }
    proof {
        lemma_index_of(fs, idx as int);
    }
    idx
}

fn chapter_flags(files: &[TutorialFile]) -> (r: (bool, bool, bool, bool))
    ensures
        r.0 == (exists|j: int| 0 <= j < files@.len() && is_setup_or_overview(#[trigger] files@[j].path@, files@[j].content@)),
        r.1 == (exists|j: int| 0 <= j < files@.len() && !is_index_path(#[trigger] files@[j].path@) && has_path_citation(files@[j].content@)),
        r.2 == (exists|j: int| 0 <= j < files@.len() && !is_index_path(#[trigger] files@[j].path@) && has_evidence_signal(files@[j].content@)),
        r.3 == !no_chapters(files@),
{
    let ghost fs = files@;
    let mut has_setup = false;
    let mut has_cit = false;
    let mut has_ev = false;
    let mut any_chapter = false;
    let mut i: usize = 0;
    while i < files.len()
        invariant
            i <= fs.len(),
            fs == files@,
            has_setup == (exists|j: int| 0 <= j < i && is_setup_or_overview(#[trigger] fs[j].path@, fs[j].content@)),
            has_cit == (exists|j: int| 0 <= j < i && !is_index_path(#[trigger] fs[j].path@) && has_path_citation(fs[j].content@)),
            has_ev == (exists|j: int| 0 <= j < i && !is_index_path(#[trigger] fs[j].path@) && has_evidence_signal(fs[j].content@)),
            any_chapter == (exists|j: int| 0 <= j < i && !is_index_path(#[trigger] fs[j].path@)),
        decreases files.len() - i,
    {
        let p = chars_of(files[i].path.as_str());
        let c = chars_of(files[i].content.as_str());
        if setup_or_overview(&p, &c) {
            has_setup = true;
        }
        if !index_path(&p) {
            any_chapter = true;
            if path_citation(&c) {
                has_cit = true;
            }
            if evidence_signal(&c) {
                has_ev = true;
            }
        }
        i = i + 1;
    }
    (has_setup, has_cit, has_ev, any_chapter)
}

fn mermaid_counts(files: &[TutorialFile]) -> (r: (usize, usize))
    requires
        file_sum(files@, |f: TutorialFile| block_count(f)) <= usize::MAX,
    ensures
        r.0 == file_sum(files@, |f: TutorialFile| block_count(f)),
        r.1 == file_sum(files@, |f: TutorialFile| valid_block_count(f)),
        r.1 <= r.0,
{
    let ghost fs = files@;
    let ghost fb = |f: TutorialFile| block_count(f);
    let ghost fv = |f: TutorialFile| valid_block_count(f);
    let mut blocks: usize = 0;
    let mut valid: usize = 0;
    let mut i: usize = 0;
    while i < files.len()
        invariant
            i <= fs.len(),
            fs == files@,
            fb == (|f: TutorialFile| block_count(f)),
            fv == (|f: TutorialFile| valid_block_count(f)),
            file_sum(fs, fb) <= usize::MAX,
            blocks == file_sum(fs.take(i as int), fb),
            valid == file_sum(fs.take(i as int), fv),
            valid <= blocks,
        decreases files.len() - i,
    {
        assert(fs.take(i + 1).drop_last() =~= fs.take(i as int));
        proof {
            lemma_file_sum_prefix(fs, fb, i + 1);
        }
        let bodies = extract_mermaid_bodies(&chars_of(files[i].content.as_str()));
        let mut k: usize = 0;
        let mut v: usize = 0;
        while k < bodies.len()
            invariant
                k <= bodies@.len(),
                v <= k,
                v == valid_count(views(bodies@).take(k as int)),
            decreases bodies.len() - k,
        {
            assert(views(bodies@).take(k + 1).drop_last() =~= views(bodies@).take(k as int));
            assert(views(bodies@)[k as int] == bodies@[k as int]@);
            if crate::mermaid::valid_after_sanitize(&bodies[k]) {
                v = v + 1;
            }
            k = k + 1;
        }
        assert(views(bodies@).take(bodies@.len() as int) =~= views(bodies@));
        assert(bodies@.len() == views(bodies@).len());
        blocks = blocks + bodies.len();
        valid = valid + v;
        i = i + 1;
    }
    assert(fs.take(fs.len() as int) =~= fs);
    (blocks, valid)
}

fn count_resolved(norm_paths: &Vec<Vec<char>>, files: &[TutorialFile], from: &[char], targets: &Vec<Vec<char>>) -> (r: usize)
    requires
        norm_paths@.len() == files@.len(),
        forall|j: int| 0 <= j < files@.len() ==> #[trigger] norm_paths@[j]@ == normalized(files@[j].path@),
    ensures
        r == resolved_count(files@, from@, views(targets@)),
        r <= targets@.len(),
{
    let ghost fs = files@;
    let ghost ts = views(targets@);
    let mut k: usize = 0;
    let mut res: usize = 0;
    while k < targets.len()
        invariant
            k <= targets@.len(),
            fs == files@,
            ts == views(targets@),
            res <= k,
            res == resolved_count(fs, from@, ts.take(k as int)),
            norm_paths@.len() == fs.len(),
            forall|j: int| 0 <= j < fs.len() ==> #[trigger] norm_paths@[j]@ == normalized(fs[j].path@),
        decreases targets.len() - k,
    {
        assert(ts.take(k + 1).drop_last() =~= ts.take(k as int));
        assert(ts[k as int] == targets@[k as int]@);
        let r = resolve_link(from, &targets[k]);
        let mut j: usize = 0;
        let mut hit = false;
        while j < norm_paths.len()
            invariant
                j <= norm_paths@.len() == fs.len(),
                forall|q: int| 0 <= q < fs.len() ==> #[trigger] norm_paths@[q]@ == normalized(fs[q].path@),
                hit == (exists|q: int| 0 <= q < j && normalized(#[trigger] fs[q].path@) == r@),
            decreases norm_paths.len() - j,
        {
            if crate::text::eq_chars(&norm_paths[j], &r) {
                hit = true;
            }
            assert(norm_paths@[j as int]@ == normalized(fs[j as int].path@));
            j = j + 1;
        }
        if hit {
            res = res + 1;
        }
        k = k + 1;
    }
    assert(ts.take(targets@.len() as int) =~= ts);
    res
}

fn link_counts(files: &[TutorialFile]) -> (r: (usize, usize))
    requires
        file_sum(files@, |f: TutorialFile| link_count(f)) <= usize::MAX,
    ensures
        r.0 == file_sum(files@, |f: TutorialFile| link_count(f)),
        r.1 == file_sum(files@, |f: TutorialFile| resolved_count(files@, f.path@, internal_links(f.content@))),
        r.1 <= r.0,
{
    let ghost fs = files@;
    let mut norm_paths: Vec<Vec<char>> = Vec::new();
    let mut i: usize = 0;
    while i < files.len()
        invariant
            i <= fs.len(),
            fs == files@,
            norm_paths@.len() == i,
            forall|j: int| 0 <= j < i ==> #[trigger] norm_paths@[j]@ == normalized(fs[j].path@),
        decreases files.len() - i,
    {
        norm_paths.push(normalize_path(&chars_of(files[i].path.as_str())));
        i = i + 1;
    }
    let ghost fl = |f: TutorialFile| link_count(f);
    let ghost fr = |f: TutorialFile| resolved_count(fs, f.path@, internal_links(f.content@));
    let mut links_total: usize = 0;
    let mut links_resolved: usize = 0;
    let mut i: usize = 0;
    while i < files.len()
        invariant
            i <= fs.len(),
            fs == files@,
            norm_paths@.len() == fs.len(),
            forall|j: int| 0 <= j < fs.len() ==> #[trigger] norm_paths@[j]@ == normalized(fs[j].path@),
            fl == (|f: TutorialFile| link_count(f)),
            fr == (|f: TutorialFile| resolved_count(fs, f.path@, internal_links(f.content@))),
            file_sum(fs, fl) <= usize::MAX,
            links_total == file_sum(fs.take(i as int), fl),
            links_resolved == file_sum(fs.take(i as int), fr),
            links_resolved <= links_total,
        decreases files.len() - i,
    {
        assert(fs.take(i + 1).drop_last() =~= fs.take(i as int));
        proof {
            lemma_file_sum_prefix(fs, fl, i + 1);
        }
        let from = chars_of(files[i].path.as_str());
        let targets = extract_internal_md_links(&chars_of(files[i].content.as_str()));
        let res = count_resolved(&norm_paths, files, &from, &targets);
        assert(targets@.len() == views(targets@).len());
        links_total = links_total + targets.len();
        links_resolved = links_resolved + res;
        i = i + 1;
    }
    assert(fs.take(fs.len() as int) =~= fs);
    (links_total, links_resolved)
}

fn push_reason(reasons: &mut Vec<String>, m: String)
    ensures
        crate::scope::string_views(final(reasons)@) == crate::scope::string_views(old(reasons)@).push(m@),
{
    let ghost before = reasons@;
    reasons.push(m);
    assert(crate::scope::string_views(reasons@) =~= crate::scope::string_views(before).push(m@));
}

fn count_reason(prefix: &str, num: usize, den: usize, suffix: &str) -> (r: String)
    ensures
        r@ == prefix@ + crate::text::decimal(num as nat) + "/"@ + crate::text::decimal(den as nat) + suffix@,
{
    let mut m: Vec<char> = Vec::new();
    push_str(&mut m, prefix);
    push_all(&mut m, &crate::text::decimal_chars(num as u64));
    push_str(&mut m, "/");
    push_all(&mut m, &crate::text::decimal_chars(den as u64));
    push_str(&mut m, suffix);
    string_of(&m)
}

fn head_reasons(c: &EvalChecks, reasons: &mut Vec<String>)
    ensures
        crate::scope::string_views(final(reasons)@) == crate::scope::string_views(old(reasons)@) + reasons_head(*c),
{
    let ghost r0 = crate::scope::string_views(reasons@);
    if !c.has_index {
        push_reason(reasons, "missing index.md".to_owned());
    }
    if !c.index_has_mermaid {
        push_reason(reasons, "index lacks mermaid maps".to_owned());
    }
    if !c.has_setup_or_overview {
        push_reason(reasons, "no setup/overview chapter".to_owned());
    }
    assert(crate::scope::string_views(reasons@) =~= r0 + reasons_head(*c));
}

fn mermaid_reasons(c: &EvalChecks, reasons: &mut Vec<String>)
    ensures
        crate::scope::string_views(final(reasons)@) == crate::scope::string_views(old(reasons)@) + reasons_mermaid(*c),
{
    let ghost r0 = crate::scope::string_views(reasons@);
    if c.mermaid_block_count == 0 {
        push_reason(reasons, "no mermaid blocks in tutorial".to_owned());
    } else if c.mermaid_valid_count < c.mermaid_block_count {
        push_reason(
            reasons,
            count_reason("invalid mermaid blocks: ", c.mermaid_valid_count, c.mermaid_block_count, " valid"),
        );
    }
    assert(crate::scope::string_views(reasons@) =~= r0 + reasons_mermaid(*c));
}

fn mid_reasons(c: &EvalChecks, reasons: &mut Vec<String>)
    ensures
        crate::scope::string_views(final(reasons)@) == crate::scope::string_views(old(reasons)@) + reasons_mid(*c),
{
    let ghost r0 = crate::scope::string_views(reasons@);
    if !c.has_path_citations {
        push_reason(reasons, "chapters lack path citations".to_owned());
    }
    if !c.has_evidence_footer {
        push_reason(reasons, "missing evidence/footer signals".to_owned());
    }
    assert(crate::scope::string_views(reasons@) =~= r0 + reasons_mid(*c));
}

fn link_reasons(c: &EvalChecks, any_chapter: bool, reasons: &mut Vec<String>)
    ensures
        crate::scope::string_views(final(reasons)@) == crate::scope::string_views(old(reasons)@) + reasons_links(*c, !any_chapter),
{
    let ghost r0 = crate::scope::string_views(reasons@);
    if c.links_total == 0 {
        if any_chapter {
            push_reason(reasons, "no internal markdown links found".to_owned());
        }
    } else if c.links_resolved < c.links_total {
        push_reason(
            reasons,
            count_reason("broken internal links: ", c.links_resolved, c.links_total, " resolve"),
        );
    }
    assert(crate::scope::string_views(reasons@) =~= r0 + reasons_links(*c, !any_chapter));
}

fn score_of(c: &EvalChecks, any_chapter: bool) -> (r: i32)
    requires
        c.mermaid_valid_count <= c.mermaid_block_count,
        c.links_resolved <= c.links_total,
    ensures
        r == raw_score(*c, !any_chapter),
        0 <= r <= 100,
{
    let mut score: i32 = 0;
    if c.has_index {
        score = score + WEIGHT_INDEX_PRESENT;
    }
    if c.index_has_mermaid {
        score = score + WEIGHT_INDEX_MERMAID;
    }
    if c.has_setup_or_overview {
        score = score + WEIGHT_SETUP_OR_OVERVIEW;
    }
    if c.mermaid_block_count > 0 {
        score = score + ratio_points_exec(20, c.mermaid_valid_count, c.mermaid_block_count);
    }
    if c.has_path_citations {
        score = score + WEIGHT_PATH_CITATIONS;
    }
    if c.has_evidence_footer {
        score = score + WEIGHT_EVIDENCE_FOOTER;
    }
    if c.links_total == 0 {
        if !any_chapter {
            score = score + WEIGHT_LINKS_RESOLVE;
        }
    } else {
        score = score + ratio_points_exec(5, c.links_resolved, c.links_total);
    }
    if score < 0 {
        score = 0;
    } else if score > 100 {
        score = 100;
    }
    score
}

fn score_and_reasons(c: &EvalChecks, any_chapter: bool) -> (r: (i32, Vec<String>))
    requires
        c.mermaid_valid_count <= c.mermaid_block_count,
        c.links_resolved <= c.links_total,
    ensures
        r.0 == raw_score(*c, !any_chapter),
        0 <= r.0 <= 100,
        crate::scope::string_views(r.1@) == eval_reasons(*c, !any_chapter),
{
    let score = score_of(c, any_chapter);
    let mut reasons: Vec<String> = Vec::new();
    assert(crate::scope::string_views(reasons@) =~= Seq::<Seq<char>>::empty());
    head_reasons(c, &mut reasons);
    mermaid_reasons(c, &mut reasons);
    mid_reasons(c, &mut reasons);
    link_reasons(c, any_chapter, &mut reasons);
    assert(crate::scope::string_views(reasons@) =~= eval_reasons(*c, !any_chapter));
    (score, reasons)
}

/// Evaluate a tutorial from an in-memory file list.
///
/// Index present 20 points, index with a mermaid map 15, setup or overview
/// chapter 15, mermaid validity 20 scaled by the share of blocks that stay
/// valid after sanitizing (no blocks: 0), path citations 15, evidence
/// footer 10, internal links 5 scaled by the share that resolve (no links:
/// 5 only when there are no chapters). Scaled weights are rounded to the
/// nearest integer, halves up. The report passes when the score reaches
/// `threshold`.
pub fn evaluate_tutorial(files: &[TutorialFile], threshold: i32) -> (r: EvalReport)
    requires
        file_sum(files@, |f: TutorialFile| block_count(f)) <= usize::MAX,
        file_sum(files@, |f: TutorialFile| link_count(f)) <= usize::MAX,
    ensures
        r.checks == eval_checks(files@),
        r.score == raw_score(eval_checks(files@), no_chapters(files@)),
        0 <= r.score <= 100,
        r.passed == (r.score >= threshold),
        r.threshold == threshold,
        crate::scope::string_views(r.reasons@) == eval_reasons(eval_checks(files@), no_chapters(files@)),
{
    let idx = find_index(files);
    let has_index = idx < files.len();
    let index_has_mermaid = if has_index {
        let b = extract_mermaid_bodies(&chars_of(files[idx].content.as_str()));
        assert(b@.len() == views(b@).len());
        b.len() > 0
    } else {
        false
    };
    let (has_setup, has_cit, has_ev, any_chapter) = chapter_flags(files);
    let (blocks, valid) = mermaid_counts(files);
    let (links_total, links_resolved) = link_counts(files);
    let checks = EvalChecks {
        has_index,
        index_has_mermaid,
        has_setup_or_overview: has_setup,
        mermaid_block_count: blocks,
        mermaid_valid_count: valid,
        has_path_citations: has_cit,
        has_evidence_footer: has_ev,
        links_resolved,
        links_total,
    };
    assert(checks == eval_checks(files@));
    let (score, reasons) = score_and_reasons(&checks, any_chapter);
    EvalReport { score, passed: score >= threshold, threshold, checks, reasons }
}

proof fn lemma_valid_count_le(bodies: Seq<Seq<char>>)
    ensures
        valid_count(bodies) <= bodies.len(),
    decreases bodies.len(),
{
    if bodies.len() > 0 {
        lemma_valid_count_le(bodies.drop_last());
    }
}

proof fn lemma_resolved_count_le(files: Seq<TutorialFile>, from: Seq<char>, ts: Seq<Seq<char>>)
    ensures
        resolved_count(files, from, ts) <= ts.len(),
    decreases ts.len(),
{
    if ts.len() > 0 {
        lemma_resolved_count_le(files, from, ts.drop_last());
    }
}

proof fn lemma_full_ratio(w: int, n: nat)
    requires
        n > 0,
        w >= 0,
    ensures
        ratio_points(w, n, n) == w,
{
    assert((2 * w * n + n) == w * (2 * n) + n) by (nonlinear_arith);
    assert(0 <= n < 2 * n);
    assert((w * (2 * n) + n) / ((2 * n) as int) == w) by (nonlinear_arith)
        requires
            n > 0,
            w >= 0,
    ;
}

/// Valid blocks never outnumber blocks, resolved links never outnumber
/// links, and a tutorial with no reasons reported scores 100.
pub proof fn lemma_eval_laws(files: Seq<TutorialFile>)
    requires
        file_sum(files, |f: TutorialFile| block_count(f)) <= usize::MAX,
        file_sum(files, |f: TutorialFile| link_count(f)) <= usize::MAX,
    ensures
        eval_checks(files).mermaid_valid_count <= eval_checks(files).mermaid_block_count,
        eval_checks(files).links_resolved <= eval_checks(files).links_total,
        eval_reasons(eval_checks(files), no_chapters(files)).len() == 0 ==> raw_score(
            eval_checks(files),
            no_chapters(files),
        ) == 100,
{
    let vb = |f: TutorialFile| valid_block_count(f);
    let bc = |f: TutorialFile| block_count(f);
    assert forall|x: TutorialFile| #[trigger] vb(x) <= bc(x) by {
        lemma_valid_count_le(mermaid_bodies(x.content@));
    }
    lemma_file_sum_le(files, vb, bc);
    let rc = |f: TutorialFile| resolved_count(files, f.path@, internal_links(f.content@));
    let lc = |f: TutorialFile| link_count(f);
    assert forall|x: TutorialFile| #[trigger] rc(x) <= lc(x) by {
        lemma_resolved_count_le(files, x.path@, internal_links(x.content@));
    }
    lemma_file_sum_le(files, rc, lc);
    let c = eval_checks(files);
    let nc = no_chapters(files);
    if eval_reasons(c, nc).len() == 0 {
        assert(reasons_head(c).len() == 0);
        assert(reasons_mermaid(c).len() == 0);
        assert(reasons_mid(c).len() == 0);
        assert(reasons_links(c, nc).len() == 0);
        lemma_full_ratio(20, c.mermaid_block_count as nat);
        if c.links_total > 0 {
            lemma_full_ratio(5, c.links_total as nat);
        }
    }
}

// ---------------------------------------------------------------------------
// how relative links resolve
// ---------------------------------------------------------------------------

/// A plain path segment: non-empty, no separator, not `.` or `..`.
pub open spec fn plain_segment(s: Seq<char>) -> bool {
    &&& s.len() > 0
    &&& !s.contains('/')
    &&& !s.contains('\\')
    &&& s != seq!['.']
    &&& s != seq!['.', '.']
}

proof fn lemma_replace_absent(s: Seq<char>, c: char, r: Seq<char>)
    requires
        !s.contains(c),
    ensures
        crate::text::replace(s, seq![c], r) == s,
{
    let pat = seq![c];
    assert forall|i: int| !crate::text::matches_at(s, pat, i) by {
        if crate::text::matches_at(s, pat, i) {
            assert(s.subrange(i, i + 1)[0] == s[i]);
        }
    }
    crate::text::lemma_find_contains(s, pat);
}

proof fn lemma_split_one(a: Seq<char>)
    requires
        !a.contains('/'),
    ensures
        split_char(a, '/') == seq![a],
{
    crate::text::lemma_char_from(a, '/', 0);
}

proof fn lemma_split_two(a: Seq<char>, b: Seq<char>)
    requires
        !a.contains('/'),
        !b.contains('/'),
    ensures
        split_char(a + seq!['/'] + b, '/') == seq![a, b],
{
    let s = a + seq!['/'] + b;
    crate::text::lemma_char_from(s, '/', 0);
    assert(s[a.len() as int] == '/');
    match char_from(s, '/', 0) {
        Some(k) => {
            if k < a.len() {
                assert(s[k] == a[k]);
            }
        },
        None => {},
    }
    assert(s.take(a.len() as int) =~= a);
    assert(s.skip(a.len() + 1int) =~= b);
    lemma_split_one(b);
}

proof fn lemma_last_segment_of(a: Seq<char>, b: Seq<char>)
    requires
        !b.contains('/'),
    ensures
        last_segment(a + seq!['/'] + b) == b,
    decreases b.len(),
{
    let p = a + seq!['/'] + b;
    if b.len() > 0 {
        let d = b.drop_last();
        assert(!d.contains('/')) by {
            if d.contains('/') {
                let k = choose|k: int| 0 <= k < d.len() && d[k] == '/';
                assert(b[k] == '/');
            }
        }
        lemma_last_segment_of(a, d);
        assert(p.drop_last() =~= a + seq!['/'] + d);
        assert(p.last() == b.last());
        assert(b.last() != '/') by {
            assert(b[b.len() - 1] == b.last());
        }
        assert(d.push(b.last()) =~= b);
    }
}

/// A plain path normalizes to itself.
proof fn lemma_normalized_plain(a: Seq<char>, b: Seq<char>)
    requires
        plain_segment(a),
        plain_segment(b),
    ensures
        normalized(a) == a,
        normalized(a + seq!['/'] + b) == a + seq!['/'] + b,
{
    reveal_strlit("\\");
    reveal_strlit("/");
    reveal_strlit(".");
    reveal_strlit("..");
    assert("\\"@ =~= seq!['\\']);
    assert("/"@ =~= seq!['/']);
    assert("."@ =~= seq!['.']);
    assert(".."@ =~= seq!['.', '.']);
    let ab = a + seq!['/'] + b;
    assert(!ab.contains('\\')) by {
        if ab.contains('\\') {
            let k = choose|k: int| 0 <= k < ab.len() && ab[k] == '\\';
            if k < a.len() {
                assert(a[k] == '\\');
            } else if k > a.len() {
                assert(b[k - a.len() - 1] == '\\');
            }
        }
    }
    lemma_replace_absent(a, '\\', "/"@);
    lemma_replace_absent(ab, '\\', "/"@);
    lemma_split_one(a);
    lemma_split_two(a, b);
    reveal_with_fuel(push_segments, 3);
    assert(seq![a].drop_last() =~= Seq::<Seq<char>>::empty());
    assert(seq![a].last() == a);
    assert(push_segments(Seq::empty(), seq![a]) =~= seq![a]);
    assert(seq![a, b].drop_last() =~= seq![a]);
    assert(seq![a, b].last() == b);
    assert(push_segments(Seq::empty(), seq![a, b]) =~= seq![a, b]);
    assert(join(seq![a], "/"@) == a);
    assert(join(seq![a, b], "/"@) == join(seq![a], "/"@) + "/"@ + b);
    assert(join(seq![a, b], "/"@) =~= ab);
}

/// A relative link resolves against the directory of the file that holds
/// it: from `d/f` the link `t` is `d/t`, and from a top-level file `f` it
/// is `t` itself (for plain segments `d`, `f`, `t`).
pub proof fn lemma_relative_link(d: Seq<char>, f: Seq<char>, t: Seq<char>)
    requires
        plain_segment(d),
        plain_segment(f),
        plain_segment(t),
    ensures
        resolved_link(d + seq!['/'] + f, t) == d + seq!['/'] + t,
        resolved_link(f, t) == t,
{
    reveal_strlit("/");
    assert("/"@ =~= seq!['/']);
    lemma_normalized_plain(d, f);
    lemma_normalized_plain(t, f);
    lemma_normalized_plain(f, t);
    assert(!starts_with(t, "/"@)) by {
        if starts_with(t, "/"@) {
            assert(t.take(1)[0] == t[0]);
        }
    }
    let from = d + seq!['/'] + f;
    lemma_last_segment_of(d, f);
    assert(from[d.len() as int] == '/');
    assert(from.contains('/'));
    assert(base_dir(from) =~= d);
    lemma_split_one(d);
    lemma_split_one(t);
    reveal_strlit(".");
    reveal_strlit("..");
    assert("."@ =~= seq!['.']);
    assert(".."@ =~= seq!['.', '.']);
    reveal_with_fuel(push_segments, 3);
    assert(seq![t].drop_last() =~= Seq::<Seq<char>>::empty());
    assert(seq![t].last() == t);
    assert(push_segments(seq![d], seq![t]) =~= seq![d].push(t));
    assert(seq![d].push(t) =~= seq![d, t]);
    assert(seq![d, t].drop_last() =~= seq![d]);
    assert(seq![d, t].last() == t);
    assert(join(seq![d], "/"@) == d);
    assert(join(seq![d, t], "/"@) == join(seq![d], "/"@) + "/"@ + t);
    assert(join(seq![d, t], "/"@) =~= d + seq!['/'] + t);
    assert(base_dir(f) == Seq::<char>::empty());
    assert(push_segments(Seq::empty(), seq![t]) =~= seq![t]);
}

} // verus!

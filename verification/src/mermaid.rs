//! Mermaid sanitize and light validation.
//!
//! Helpers shorten labels, strip characters that break renderers, emit stable
//! node ids, cap sequence participants, and lightly validate blocks. There is
//! no full Mermaid parser: the behaviour is the set of heuristics below.
//!
//! When a sequence diagram declares more than `MAX_SEQUENCE_PARTICIPANTS`
//! participants, `sanitize_mermaid` keeps the first declarations and drops
//! message lines that reference removed participant ids.

use vstd::prelude::*;

use crate::text::{
    chars_of, decimal, decimal_chars, eq_str, is_alnum, is_alnum_char, is_alpha, is_alpha_char,
    is_digit, is_digit_char, push_all, push_str, slice_chars, string_of, trim, trim_end,
    trim_start, trimmed, upper, upper_char,
};

verus! {

broadcast use vstd::string::group_string_axioms;

/// Soft max length for diagram labels.
pub const MAX_LABEL_CHARS: usize = 40;

/// Max participants kept in teaching sequence diagrams.
pub const MAX_SEQUENCE_PARTICIPANTS: usize = 6;

/// Result of a light validation pass over a Mermaid body (no fences).
#[derive(Clone, Debug, PartialEq, Eq)]
pub struct ValidateResult {
    /// `true` when no blocking issues were found.
    pub valid: bool,
    /// Human-readable issues (empty when `valid` is `true`).
    pub issues: Vec<String>,
}

// ---------------------------------------------------------------------------
// labels
// ---------------------------------------------------------------------------

/// Characters that commonly break Mermaid when left raw in labels.
pub open spec fn is_forbidden(c: char) -> bool {
    c == '"' || c == '#' || c == ';'
}

/// Conservative printable ASCII set kept in labels.
pub open spec fn is_safe_label_char(c: char) -> bool {
    ||| is_alnum(c)
    ||| c == '_' || c == '-' || c == '.' || c == ',' || c == ':' || c == '/'
    ||| c == '+' || c == '*' || c == '=' || c == '?' || c == '!' || c == '@'
    ||| c == '&' || c == '%' || c == '\''
}

fn forbidden_char(c: char) -> (r: bool)
    ensures
        r == is_forbidden(c),
{
    c == '"' || c == '#' || c == ';'
}

fn safe_label_char(c: char) -> (r: bool)
    ensures
        r == is_safe_label_char(c),
{
    is_alnum_char(c) || c == '_' || c == '-' || c == '.' || c == ',' || c == ':' || c == '/'
        || c == '+' || c == '*' || c == '=' || c == '?' || c == '!' || c == '@' || c == '&'
        || c == '%' || c == '\''
}

/// A character that separates words in a label: ASCII whitespace or a
/// square bracket or parenthesis.
pub open spec fn is_label_break(c: char) -> bool {
    crate::text::is_ascii_ws(c) || c == '[' || c == ']' || c == '(' || c == ')'
}

/// One left-to-right pass over a label: safe characters are kept,
/// whitespace, brackets and parentheses become a single space unless the
/// output already ends in one (or is empty), and every other character
/// (the forbidden `"#;` and anything outside the safe set) is dropped. The
/// flag is "last output was a space".
pub open spec fn label_scan(s: Seq<char>) -> (Seq<char>, bool)
    decreases s.len(),
{
    if s.len() == 0 {
        (Seq::empty(), true)
    } else {
        let (o, sp) = label_scan(s.drop_last());
        let c = s.last();
        if is_safe_label_char(c) {
            (o.push(c), false)
        } else if !is_label_break(c) {
            (o, sp)
        } else if sp {
            (o, true)
        } else {
            (o.push(' '), true)
        }
    }
}

/// The first `n` characters of `s` (all of them when shorter).
pub open spec fn take_chars(s: Seq<char>, n: nat) -> Seq<char> {
    if s.len() <= n {
        s
    } else {
        s.take(n as int)
    }
}

/// What `sanitize_label` returns.
pub open spec fn label_text(s: Seq<char>) -> Seq<char> {
    take_chars(trim(label_scan(s).0), 40)
}

/// A label character that survives sanitizing.
pub open spec fn is_label_out_char(c: char) -> bool {
    is_safe_label_char(c) || c == ' '
}

/// Every character of the scan output is safe or a space, and the flag
/// says whether it ends in a space (or is empty).
pub proof fn lemma_label_scan(s: Seq<char>)
    ensures
        forall|i: int|
            0 <= i < label_scan(s).0.len() ==> is_label_out_char(#[trigger] label_scan(s).0[i]),
        label_scan(s).1 <==> (label_scan(s).0.len() == 0 || label_scan(s).0.last() == ' '),
    decreases s.len(),
{
    if s.len() > 0 {
        lemma_label_scan(s.drop_last());
    }
}

/// A sanitized label has at most `MAX_LABEL_CHARS` characters, and each is
/// from the safe set or a space: in particular none of `"`, `#`, `;`.
pub proof fn lemma_label_text_safe(s: Seq<char>)
    ensures
        label_text(s).len() <= 40,
        forall|i: int| 0 <= i < label_text(s).len() ==> is_label_out_char(#[trigger] label_text(s)[i]),
        forall|i: int| 0 <= i < label_text(s).len() ==> !is_forbidden(#[trigger] label_text(s)[i]),
{
    lemma_label_scan(s);
    let p = |c: char| is_label_out_char(c);
    crate::text::lemma_trim_keeps(label_scan(s).0, p);
    let t = trim(label_scan(s).0);
    assert forall|i: int| 0 <= i < label_text(s).len() implies is_label_out_char(
        #[trigger] label_text(s)[i],
    ) by {
        assert(label_text(s)[i] == t[i]);
        assert(p(t[i]));
    }
}

/// Exec `label_scan(..).0`.
fn scan_label(s: &[char]) -> (r: Vec<char>)
    ensures
        r@ == label_scan(s@).0,
{
    let mut out: Vec<char> = Vec::new();
    let mut last_was_space = true;
    let mut i: usize = 0;
    while i < s.len()
        invariant
            i <= s@.len(),
            (out@, last_was_space) == label_scan(s@.take(i as int)),
        decreases s.len() - i,
    {
        assert(s@.take(i + 1).drop_last() =~= s@.take(i as int));
        let c = s[i];
        if safe_label_char(c) {
            out.push(c);
            last_was_space = false;
        } else if !(crate::text::is_ascii_ws_char(c) || c == '[' || c == ']' || c == '(' || c == ')') {
        } else if !last_was_space {
            out.push(' ');
            last_was_space = true;
        }
        i = i + 1;
    }
    assert(s@.take(s@.len() as int) =~= s@);
    out
}

/// The first `n` characters of `v`.
pub fn truncate_chars(v: &[char], n: usize) -> (r: Vec<char>)
    ensures
        r@ == take_chars(v@, n as nat),
{
    if v.len() <= n {
        assert(v@.subrange(0, v@.len() as int) =~= v@);
        slice_chars(v, 0, v.len())
    } else {
        slice_chars(v, 0, n)
    }
}

/// `sanitize_label` on characters.
pub fn sanitize_label_chars(label: &[char]) -> (r: Vec<char>)
    ensures
        r@ == label_text(label@),
{
    let scanned = scan_label(label);
    let t = trimmed(&scanned);
    truncate_chars(&t, MAX_LABEL_CHARS)
}

/// Shorten and scrub a display label for safe Mermaid use.
///
/// Keeps letters, digits and common punctuation; turns whitespace,
/// brackets and parentheses into a single space (collapsing runs); drops
/// `"`, `#`, `;` and every other character outside that safe set; trims;
/// and truncates to `MAX_LABEL_CHARS` characters.
pub fn sanitize_label(label: &str) -> (r: String)
    ensures
        r@ == label_text(label@),
        r@.len() <= MAX_LABEL_CHARS,
        forall|i: int| 0 <= i < r@.len() ==> !is_forbidden(#[trigger] r@[i]),
{
    proof {
        lemma_label_text_safe(label@);
    }
    let v = chars_of(label);
    let out = sanitize_label_chars(&v);
    string_of(&out)
}

// ---------------------------------------------------------------------------
// node ids and participant lines
// ---------------------------------------------------------------------------

/// The ASCII letters of `s`, uppercased.
pub open spec fn upper_letters(s: Seq<char>) -> Seq<char>
    decreases s.len(),
{
    if s.len() == 0 {
        s
    } else if is_alpha(s.last()) {
        upper_letters(s.drop_last()).push(upper(s.last()))
    } else {
        upper_letters(s.drop_last())
    }
}

/// What `stable_node_id` returns.
pub open spec fn node_id_text(prefix: Seq<char>, index: nat) -> Seq<char> {
    let p = upper_letters(prefix);
    (if p.len() == 0 {
        seq!['N']
    } else {
        p
    }) + decimal(index)
}

/// Stable node id: the ASCII letters of `prefix`, uppercased (`N` when
/// there are none), followed by `index` in decimal.
pub fn stable_node_id(prefix: &str, index: usize) -> (r: String)
    ensures
        r@ == node_id_text(prefix@, index as nat),
{
    let v = chars_of(prefix);
    let mut p: Vec<char> = Vec::new();
    let mut i: usize = 0;
    while i < v.len()
        invariant
            i <= v@.len(),
            p@ == upper_letters(v@.take(i as int)),
        decreases v.len() - i,
    {
        assert(v@.take(i + 1).drop_last() =~= v@.take(i as int));
        if is_alpha_char(v[i]) {
            p.push(upper_char(v[i]));
        }
        i = i + 1;
    }
    assert(v@.take(v@.len() as int) =~= v@);
    if p.len() == 0 {
        p.push('N');
        assert(p@ =~= seq!['N']);
    }
    let d = decimal_chars(index as u64);
    push_all(&mut p, &d);
    string_of(&p)
}

/// The characters of `s` that may appear in a participant id.
pub open spec fn id_chars(s: Seq<char>) -> Seq<char>
    decreases s.len(),
{
    if s.len() == 0 {
        s
    } else if is_alnum(s.last()) || s.last() == '_' {
        id_chars(s.drop_last()).push(s.last())
    } else {
        id_chars(s.drop_last())
    }
}

/// A participant id: ASCII letters, digits and `_` only; `P` when nothing is
/// left, and a leading `P` before a digit.
pub open spec fn participant_id_text(s: Seq<char>) -> Seq<char> {
    let f = id_chars(s);
    let g = if f.len() == 0 {
        seq!['P']
    } else {
        f
    };
    if is_digit(g[0]) {
        seq!['P'] + g
    } else {
        g
    }
}

fn sanitize_participant_id(id: &[char]) -> (r: Vec<char>)
    ensures
        r@ == participant_id_text(id@),
{
    let mut f: Vec<char> = Vec::new();
    let mut i: usize = 0;
    while i < id.len()
        invariant
            i <= id@.len(),
            f@ == id_chars(id@.take(i as int)),
        decreases id.len() - i,
    {
        assert(id@.take(i + 1).drop_last() =~= id@.take(i as int));
        if is_alnum_char(id[i]) || id[i] == '_' {
            f.push(id[i]);
        }
        i = i + 1;
    }
    assert(id@.take(id@.len() as int) =~= id@);
    if f.len() == 0 {
        f.push('P');
        assert(f@ =~= seq!['P']);
    }
    if is_digit_char(f[0]) {
        let mut g: Vec<char> = Vec::new();
        g.push('P');
        push_all(&mut g, &f);
        assert(g@ =~= seq!['P'] + f@);
        g
    } else {
        f
    }
}

/// What `participant_line` returns.
pub open spec fn participant_line_text(id: Seq<char>, label: Seq<char>) -> Seq<char> {
    let safe_id = participant_id_text(id);
    let safe_label = label_text(label);
    if safe_label.len() == 0 || safe_label == safe_id {
        "participant "@ + safe_id
    } else {
        "participant "@ + safe_id + " as "@ + safe_label
    }
}

fn participant_line_chars(id: &[char], label: &[char]) -> (r: Vec<char>)
    ensures
        r@ == participant_line_text(id@, label@),
{
    let safe_id = sanitize_participant_id(id);
    let safe_label = sanitize_label_chars(label);
    let mut out: Vec<char> = Vec::new();
    push_str(&mut out, "participant ");
    push_all(&mut out, &safe_id);
    if safe_label.len() == 0 || crate::text::eq_chars(&safe_label, &safe_id) {
    } else {
        push_str(&mut out, " as ");
        push_all(&mut out, &safe_label);
    }
    out
}

/// Build a sequence `participant` line with a sanitized id and label:
/// `participant {id} as {label}`, or `participant {id}` when the label is
/// empty or equal to the id.
pub fn participant_line(id: &str, label: &str) -> (r: String)
    ensures
        r@ == participant_line_text(id@, label@),
{
    let i = chars_of(id);
    let l = chars_of(label);
    let out = participant_line_chars(&i, &l);
    string_of(&out)
}

/// Participant lines for the first `MAX_SEQUENCE_PARTICIPANTS` pairs.
pub open spec fn participant_lines_text(ps: Seq<(&str, &str)>) -> Seq<Seq<char>> {
    let n = if ps.len() <= 6 {
        ps.len() as int
    } else {
        6
    };
    Seq::new(n as nat, |i: int| participant_line_text(ps[i].0@, ps[i].1@))
}

/// Cap a list of (id, label) pairs at `MAX_SEQUENCE_PARTICIPANTS` (the
/// first ones are kept) and emit their participant lines.
pub fn sequence_participant_lines(participants: &[(&str, &str)]) -> (r: Vec<String>)
    ensures
        crate::scope::string_views(r@) == participant_lines_text(participants@),
        r@.len() <= MAX_SEQUENCE_PARTICIPANTS,
{
    let n = if participants.len() <= MAX_SEQUENCE_PARTICIPANTS {
        participants.len()
    } else {
        MAX_SEQUENCE_PARTICIPANTS
    };
    let mut out: Vec<String> = Vec::new();
    let mut i: usize = 0;
    while i < n
        invariant
            i <= n <= participants@.len(),
            n == (if participants@.len() <= 6 { participants@.len() as int } else { 6 }),
            crate::scope::string_views(out@) =~= participant_lines_text(participants@).take(i as int),
        decreases n - i,
    {
        let (id, label) = participants[i];
        let line = participant_line(id, label);
        let ghost prev = out@;
        out.push(line);
        assert(crate::scope::string_views(out@) =~= crate::scope::string_views(prev).push(line@));
        assert(participant_lines_text(participants@).take(i + 1) =~= participant_lines_text(
            participants@,
        ).take(i as int).push(participant_line_text(participants@[i as int].0@, participants@[i as int].1@)));
        i = i + 1;
    }
    out
}

// ---------------------------------------------------------------------------
// validation
// ---------------------------------------------------------------------------

/// What `format!("{:?}", s)` prints for a `str` (quoted, with escapes).
pub uninterp spec fn str_debug(s: Seq<char>) -> Seq<char>;

/// Trusted: `format!("{:?}", s)` (the `Debug` formatting of a `str`) gives the
/// text named `str_debug`; nothing more is claimed of it.
#[verifier::external_body]
pub(crate) fn debug_string(s: &str) -> (r: String)
    ensures
        r@ == str_debug(s@),
{
    format!("{s:?}")
}

/// The leading run of non-whitespace characters of `t`.
pub open spec fn token_prefix(t: Seq<char>) -> Seq<char>
    decreases t.len(),
{
    if t.len() == 0 || crate::text::is_ws(t[0]) {
        Seq::empty()
    } else {
        seq![t[0]] + token_prefix(t.drop_first())
    }
}

/// The first whitespace-separated token (`split_whitespace().next()`, or
/// empty).
pub open spec fn first_token(s: Seq<char>) -> Seq<char> {
    token_prefix(trim_start(s))
}

fn first_token_chars(v: &[char]) -> (r: Vec<char>)
    ensures
        r@ == first_token(v@),
{
    let n = v.len();
    let a = crate::text::trim_start_idx(v, 0, n);
    assert(v@.subrange(0, n as int) =~= v@);
    let mut j = a;
    assert(v@.subrange(a as int, a as int) =~= Seq::<char>::empty());
    while j < n && !crate::text::is_ws_char(v[j])
        invariant
            a <= j <= n == v@.len(),
            token_prefix(v@.subrange(a as int, n as int)) == v@.subrange(a as int, j as int)
                + token_prefix(v@.subrange(j as int, n as int)),
        decreases n - j,
    {
        assert(v@.subrange(j as int, n as int).drop_first() =~= v@.subrange(j + 1, n as int));
        assert(v@.subrange(a as int, j + 1) =~= v@.subrange(a as int, j as int) + seq![v@[j as int]]);
        j = j + 1;
    }
    assert(v@.subrange(a as int, j as int) + token_prefix(v@.subrange(j as int, n as int))
        =~= v@.subrange(a as int, j as int));
    slice_chars(v, a, j)
}

/// Diagram kinds accepted as the first token.
pub open spec fn is_known_kind(k: Seq<char>) -> bool {
    ||| k == "flowchart"@
    ||| k == "graph"@
    ||| k == "sequenceDiagram"@
    ||| k == "classDiagram"@
    ||| k == "stateDiagram"@
    ||| k == "stateDiagram-v2"@
    ||| k == "erDiagram"@
    ||| k == "gantt"@
    ||| k == "pie"@
    ||| k == "journey"@
    ||| k == "gitGraph"@
    ||| k == "mindmap"@
}

/// The diagram kinds that `validate_mermaid` documents as accepted.
pub open spec fn documented_kinds() -> Seq<Seq<char>> {
    seq![
        "flowchart"@, "graph"@, "sequenceDiagram"@, "classDiagram"@, "stateDiagram"@,
        "stateDiagram-v2"@, "erDiagram"@, "gantt"@, "pie"@, "journey"@, "gitGraph"@, "mindmap"@,
    ]
}

/// A body whose first token is a documented diagram kind gets no
/// "unknown or missing diagram kind" issue; with no raw `"` or `#`,
/// balanced brackets and parentheses, and (for a sequence diagram) at most
/// six participants, it validates with no issue at all.
pub proof fn lemma_documented_kind_accepted(t: Seq<char>)
    requires
        trim(t).len() > 0,
        documented_kinds().contains(diagram_kind(trim(t))),
    ensures
        forall|i: int|
            0 <= i < validate_issues(t).len() ==> !crate::text::starts_with(
                #[trigger] validate_issues(t)[i],
                "unknown or missing diagram kind"@,
            ),
        (!trim(t).contains('"') && !trim(t).contains('#') && balanced(trim(t), '[', ']')
            && balanced(trim(t), '(', ')') && (diagram_kind(trim(t)) != "sequenceDiagram"@
            || participant_count(crate::text::lines(trim(t))) <= 6)) ==> validate_issues(t).len()
            == 0,
{
    let k = diagram_kind(trim(t));
    let ks = documented_kinds();
    let j = choose|j: int| 0 <= j < ks.len() && ks[j] == k;
    assert(ks.len() == 12);
    assert(ks[0] == "flowchart"@);
    assert(ks[1] == "graph"@);
    assert(ks[2] == "sequenceDiagram"@);
    assert(ks[3] == "classDiagram"@);
    assert(ks[4] == "stateDiagram"@);
    assert(ks[5] == "stateDiagram-v2"@);
    assert(ks[6] == "erDiagram"@);
    assert(ks[7] == "gantt"@);
    assert(ks[8] == "pie"@);
    assert(ks[9] == "journey"@);
    assert(ks[10] == "gitGraph"@);
    assert(ks[11] == "mindmap"@);
    assert(is_known_kind(k));
    reveal_strlit("raw double-quote characters are not allowed");
    reveal_strlit("raw '#' characters are not allowed");
    reveal_strlit("unbalanced square brackets");
    reveal_strlit("unbalanced parentheses");
    reveal_strlit("too many sequence participants: ");
    let tt = trim(t);
    let count = participant_count(crate::text::lines(tt));
    let p1: Seq<Seq<char>> = if tt.contains('"') {
        seq!["raw double-quote characters are not allowed"@]
    } else {
        Seq::empty()
    };
    let p2: Seq<Seq<char>> = if tt.contains('#') {
        seq!["raw '#' characters are not allowed"@]
    } else {
        Seq::empty()
    };
    let p3: Seq<Seq<char>> = if balanced(tt, '[', ']') {
        Seq::empty()
    } else {
        seq!["unbalanced square brackets"@]
    };
    let p4: Seq<Seq<char>> = if balanced(tt, '(', ')') {
        Seq::empty()
    } else {
        seq!["unbalanced parentheses"@]
    };
    let p5: Seq<Seq<char>> = if k == "sequenceDiagram"@ && count > 6 {
        seq!["too many sequence participants: "@ + decimal(count) + " > 6"@]
    } else {
        Seq::empty()
    };
    assert(validate_issues(t) =~= Seq::<Seq<char>>::empty() + p1 + p2 + p3 + p4 + p5);
    if p1.len() > 0 {
        lemma_not_kind_issue(p1[0]);
    }
    if p2.len() > 0 {
        lemma_not_kind_issue(p2[0]);
    }
    if p3.len() > 0 {
        lemma_not_kind_issue(p3[0]);
    }
    if p4.len() > 0 {
        lemma_not_kind_issue(p4[0]);
    }
    if p5.len() > 0 {
        assert(p5[0][0] == 't');
        lemma_not_kind_issue(p5[0]);
    }
    lemma_no_kind_issue_concat(Seq::<Seq<char>>::empty(), p1);
    lemma_no_kind_issue_concat(Seq::<Seq<char>>::empty() + p1, p2);
    lemma_no_kind_issue_concat(Seq::<Seq<char>>::empty() + p1 + p2, p3);
    lemma_no_kind_issue_concat(Seq::<Seq<char>>::empty() + p1 + p2 + p3, p4);
    lemma_no_kind_issue_concat(Seq::<Seq<char>>::empty() + p1 + p2 + p3 + p4, p5);
}

/// An issue text that does not open with `u?k` is no diagram-kind issue.
proof fn lemma_not_kind_issue(m: Seq<char>)
    requires
        m.len() > 2,
        m[0] != 'u' || m[2] != 'k',
    ensures
        !crate::text::starts_with(m, "unknown or missing diagram kind"@),
{
    reveal_strlit("unknown or missing diagram kind");
    let pre = "unknown or missing diagram kind"@;
    if crate::text::starts_with(m, pre) {
        assert(m.take(pre.len() as int)[0] == m[0]);
        assert(m.take(pre.len() as int)[2] == m[2]);
    }
}

/// Two issue lists without a diagram-kind issue concatenate to one.
proof fn lemma_no_kind_issue_concat(a: Seq<Seq<char>>, b: Seq<Seq<char>>)
    requires
        forall|i: int|
            0 <= i < a.len() ==> !crate::text::starts_with(
                #[trigger] a[i],
                "unknown or missing diagram kind"@,
            ),
        forall|i: int|
            0 <= i < b.len() ==> !crate::text::starts_with(
                #[trigger] b[i],
                "unknown or missing diagram kind"@,
            ),
    ensures
        forall|i: int|
            0 <= i < (a + b).len() ==> !crate::text::starts_with(
                #[trigger] (a + b)[i],
                "unknown or missing diagram kind"@,
            ),
{
    assert forall|i: int| 0 <= i < (a + b).len() implies !crate::text::starts_with(
        #[trigger] (a + b)[i],
        "unknown or missing diagram kind"@,
    ) by {
        if i < a.len() {
            assert((a + b)[i] == a[i]);
        } else {
            assert((a + b)[i] == b[i - a.len()]);
        }
    }
}
fn known_kind(k: &[char]) -> (r: bool)
    ensures
        r == is_known_kind(k@),
{
    eq_str(k, "flowchart") || eq_str(k, "graph") || eq_str(k, "sequenceDiagram") || eq_str(
        k,
        "classDiagram",
    ) || eq_str(k, "stateDiagram") || eq_str(k, "stateDiagram-v2") || eq_str(k, "erDiagram")
        || eq_str(k, "gantt") || eq_str(k, "pie") || eq_str(k, "journey") || eq_str(k, "gitGraph")
        || eq_str(k, "mindmap")
}

/// Bracket depth after scanning `s` left to right; `None` once a closing
/// bracket has no open partner.
pub open spec fn bracket_depth(s: Seq<char>, open: char, close: char) -> Option<nat>
    decreases s.len(),
{
    if s.len() == 0 {
        Some(0)
    } else {
        match bracket_depth(s.drop_last(), open, close) {
            None => None,
            Some(d) => if s.last() == open {
                Some(d + 1)
            } else if s.last() == close {
                if d == 0 {
                    None
                } else {
                    Some((d - 1) as nat)
                }
            } else {
                Some(d)
            },
        }
    }
}

/// Every closing bracket has an earlier open partner and none is left open.
pub open spec fn balanced(s: Seq<char>, open: char, close: char) -> bool {
    bracket_depth(s, open, close) == Some(0nat)
}

fn brackets_balanced(s: &[char], open: char, close: char) -> (r: bool)
    requires
        open != close,
    ensures
        r == balanced(s@, open, close),
{
    let mut depth: usize = 0;
    let mut i: usize = 0;
    while i < s.len()
        invariant
            i <= s@.len(),
            depth <= i,
            bracket_depth(s@.take(i as int), open, close) == Some(depth as nat),
        decreases s.len() - i,
    {
        assert(s@.take(i + 1).drop_last() =~= s@.take(i as int));
        if s[i] == open {
            depth = depth + 1;
        } else if s[i] == close {
            if depth == 0 {
                proof {
                    lemma_depth_none_stays(s@, open, close, i as int + 1);
                }
                return false;
            }
            depth = depth - 1;
        }
        i = i + 1;
    }
    assert(s@.take(s@.len() as int) =~= s@);
    depth == 0
}

proof fn lemma_depth_none_stays(s: Seq<char>, open: char, close: char, k: int)
    requires
        0 <= k <= s.len(),
        bracket_depth(s.take(k), open, close) is None,
    ensures
        bracket_depth(s, open, close) is None,
    decreases s.len() - k,
{
    if k < s.len() {
        assert(s.take(k + 1).drop_last() =~= s.take(k));
        lemma_depth_none_stays(s, open, close, k + 1);
    } else {
        assert(s.take(k) =~= s);
    }
}

/// A `participant` or `actor` declaration.
pub open spec fn is_participant_line(l: Seq<char>) -> bool {
    crate::text::starts_with(trim_start(l), "participant "@) || crate::text::starts_with(
        trim_start(l),
        "actor "@,
    )
}

fn participant_line_check(l: &[char]) -> (r: bool)
    ensures
        r == is_participant_line(l@),
{
    let t = crate::text::trimmed_start(l);
    crate::text::starts_with_str(&t, "participant ") || crate::text::starts_with_str(&t, "actor ")
}

/// Number of lines that declare a participant.
pub open spec fn participant_count(ls: Seq<Seq<char>>) -> nat
    decreases ls.len(),
{
    if ls.len() == 0 {
        0
    } else {
        participant_count(ls.drop_last()) + if is_participant_line(trim(ls.last())) {
            1nat
        } else {
            0
        }
    }
}

fn count_sequence_participants(ls: &Vec<Vec<char>>) -> (r: usize)
    ensures
        r == participant_count(crate::text::views(ls@)),
{
    let mut n: usize = 0;
    let mut i: usize = 0;
    while i < ls.len()
        invariant
            i <= ls@.len(),
            n <= i,
            n == participant_count(crate::text::views(ls@).take(i as int)),
        decreases ls.len() - i,
    {
        assert(crate::text::views(ls@).take(i + 1).drop_last() =~= crate::text::views(ls@).take(
            i as int,
        ));
        let t = trimmed(&ls[i]);
        if participant_line_check(&t) {
            n = n + 1;
        }
        i = i + 1;
    }
    assert(crate::text::views(ls@).take(ls@.len() as int) =~= crate::text::views(ls@));
    n
}

/// The diagram kind of a non-empty trimmed body: the first token of its
/// first line.
pub open spec fn diagram_kind(t: Seq<char>) -> Seq<char> {
    first_token(trim(crate::text::lines(t)[0]))
}

/// The issues `validate_mermaid` reports, in order.
pub open spec fn validate_issues(source: Seq<char>) -> Seq<Seq<char>> {
    let t = trim(source);
    if t.len() == 0 {
        seq!["empty mermaid body"@]
    } else {
        let kind = diagram_kind(t);
        let count = participant_count(crate::text::lines(t));
        (if is_known_kind(kind) {
            Seq::empty()
        } else {
            seq!["unknown or missing diagram kind: "@ + str_debug(kind)]
        }) + (if t.contains('"') {
            seq!["raw double-quote characters are not allowed"@]
        } else {
            Seq::empty()
        }) + (if t.contains('#') {
            seq!["raw '#' characters are not allowed"@]
        } else {
            Seq::empty()
        }) + (if balanced(t, '[', ']') {
            Seq::empty()
        } else {
            seq!["unbalanced square brackets"@]
        }) + (if balanced(t, '(', ')') {
            Seq::empty()
        } else {
            seq!["unbalanced parentheses"@]
        }) + (if kind == "sequenceDiagram"@ && count > 6 {
            seq!["too many sequence participants: "@ + decimal(count) + " > 6"@]
        } else {
            Seq::empty()
        })
    }
}

/// A non-empty text has at least one line.
pub proof fn lemma_lines_nonempty(s: Seq<char>)
    requires
        s.len() > 0,
    ensures
        crate::text::lines(s).len() > 0,
{
}

fn push_issue(issues: &mut Vec<String>, msg: String)
    ensures
        crate::scope::string_views(final(issues)@) == crate::scope::string_views(old(issues)@).push(
            msg@,
        ),
{
    let ghost prev = issues@;
    issues.push(msg);
    assert(crate::scope::string_views(issues@) =~= crate::scope::string_views(prev).push(msg@));
}

fn validate_chars(t: &[char]) -> (r: ValidateResult)
    requires
        t@ == trim(t@),
    ensures
        crate::scope::string_views(r.issues@) == validate_issues(t@),
        r.valid == (r.issues@.len() == 0),
{
    let mut issues: Vec<String> = Vec::new();
    proof {
        assert(crate::scope::string_views(issues@) =~= Seq::<Seq<char>>::empty());
        crate::text::lemma_trim_idempotent(t@);
    }
    if t.len() == 0 {
        push_issue(&mut issues, "empty mermaid body".to_owned());
        return ValidateResult { valid: false, issues };
    }
    let ls = crate::text::lines_of(t);
    proof {
        lemma_lines_nonempty(t@);
    }
    assert(crate::text::views(ls@)[0] == ls@[0]@);
    let first = trimmed(&ls[0]);
    let kind = first_token_chars(&first);
    let ghost e0: Seq<Seq<char>> = if is_known_kind(kind@) {
        Seq::empty()
    } else {
        seq!["unknown or missing diagram kind: "@ + str_debug(kind@)]
    };
    if !known_kind(&kind) {
        let ks = string_of(&kind);
        let dbg = debug_string(ks.as_str());
        let mut msg: Vec<char> = Vec::new();
        push_str(&mut msg, "unknown or missing diagram kind: ");
        push_str(&mut msg, dbg.as_str());
        push_issue(&mut issues, string_of(&msg));
    }
    assert(crate::scope::string_views(issues@) =~= e0);
    let ghost e1 = e0 + if t@.contains('"') {
        seq!["raw double-quote characters are not allowed"@]
    } else {
        Seq::empty()
    };
    if crate::text::has_char(t, '"') {
        push_issue(&mut issues, "raw double-quote characters are not allowed".to_owned());
    }
    assert(crate::scope::string_views(issues@) =~= e1);
    let ghost e2 = e1 + if t@.contains('#') {
        seq!["raw '#' characters are not allowed"@]
    } else {
        Seq::empty()
    };
    if crate::text::has_char(t, '#') {
        push_issue(&mut issues, "raw '#' characters are not allowed".to_owned());
    }
    assert(crate::scope::string_views(issues@) =~= e2);
    let ghost e3 = e2 + if balanced(t@, '[', ']') {
        Seq::empty()
    } else {
        seq!["unbalanced square brackets"@]
    };
    if !brackets_balanced(t, '[', ']') {
        push_issue(&mut issues, "unbalanced square brackets".to_owned());
    }
    assert(crate::scope::string_views(issues@) =~= e3);
    let ghost e4 = e3 + if balanced(t@, '(', ')') {
        Seq::empty()
    } else {
        seq!["unbalanced parentheses"@]
    };
    if !brackets_balanced(t, '(', ')') {
        push_issue(&mut issues, "unbalanced parentheses".to_owned());
    }
    assert(crate::scope::string_views(issues@) =~= e4);
    if eq_str(&kind, "sequenceDiagram") {
        let count = count_sequence_participants(&ls);
        if count > MAX_SEQUENCE_PARTICIPANTS {
            let mut msg: Vec<char> = Vec::new();
            push_str(&mut msg, "too many sequence participants: ");
            let d = decimal_chars(count as u64);
            push_all(&mut msg, &d);
            push_str(&mut msg, " > 6");
            push_issue(&mut issues, string_of(&msg));
        }
    }
    assert(crate::scope::string_views(issues@) =~= validate_issues(t@));
    let valid = issues.len() == 0;
    ValidateResult { valid, issues }
}

/// Light validation of a Mermaid diagram body (without markdown fences).
///
/// Reports, in this order: an empty body (and nothing else); an unknown or
/// missing diagram kind; raw `"`; raw `#`; unbalanced `[]`; unbalanced `()`;
/// more than `MAX_SEQUENCE_PARTICIPANTS` participants in a
/// `sequenceDiagram`. The body is valid when nothing is reported.
pub fn validate_mermaid(source: &str) -> (r: ValidateResult)
    ensures
        crate::scope::string_views(r.issues@) == validate_issues(source@),
        r.valid == (r.issues@.len() == 0),
{
    let v = chars_of(source);
    let t = trimmed(&v);
    proof {
        crate::text::lemma_trim_idempotent(v@);
    }
    validate_chars(&t)
}

// ---------------------------------------------------------------------------
// diagram lines
// ---------------------------------------------------------------------------

/// `s` without `"`, `#` and `;`.
pub open spec fn remove_forbidden(s: Seq<char>) -> Seq<char>
    decreases s.len(),
{
    if s.len() == 0 {
        s
    } else if is_forbidden(s.last()) {
        remove_forbidden(s.drop_last())
    } else {
        remove_forbidden(s.drop_last()).push(s.last())
    }
}

/// Scan of a bracketed span that starts at `k` (just after the opening
/// bracket): at most 512 characters are consumed; the scan stops after the
/// matching closing bracket, which is consumed but not kept. Returns the
/// index after the consumed characters and the text inside.
pub open spec fn bracket_span(
    s: Seq<char>,
    k: int,
    taken: nat,
    depth: nat,
    open: char,
    close: char,
) -> (int, Seq<char>)
    decreases s.len() - k,
{
    if taken >= 512 || k >= s.len() || k < 0 {
        (k, Seq::empty())
    } else {
        let c = s[k];
        if c == close && depth <= 1 {
            (k + 1, Seq::empty())
        } else {
            let d = if c == open {
                depth + 1
            } else if c == close {
                (depth - 1) as nat
            } else {
                depth
            };
            let (j, r) = bracket_span(s, k + 1, taken + 1, d, open, close);
            (j, seq![c] + r)
        }
    }
}

/// The span scan moves forward.
pub proof fn lemma_bracket_span_end(
    s: Seq<char>,
    k: int,
    taken: nat,
    depth: nat,
    open: char,
    close: char,
)
    requires
        0 <= k <= s.len(),
    ensures
        k <= bracket_span(s, k, taken, depth, open, close).0 <= s.len(),
    decreases s.len() - k,
{
    if taken < 512 && k < s.len() {
        let c = s[k];
        if !(c == close && depth <= 1) {
            let d = if c == open {
                depth + 1
            } else if c == close {
                (depth - 1) as nat
            } else {
                depth
            };
            lemma_bracket_span_end(s, k + 1, taken + 1, d, open, close);
        }
    }
}

/// What `sanitize_diagram_line` returns for `s[k..]`: `"`, `#` and `;` are
/// dropped; a `[...]` span is re-emitted with its inside passed through
/// `sanitize_label`; a `(...)` span with `"`, `#`, `;` removed inside; every
/// other character is kept.
pub open spec fn diagram_line_from(s: Seq<char>, k: int) -> Seq<char>
    decreases s.len() - k,
{
    if k < 0 || k >= s.len() {
        Seq::empty()
    } else {
        let c = s[k];
        if is_forbidden(c) {
            diagram_line_from(s, k + 1)
        } else if c == '[' {
            let (j, inner) = bracket_span(s, k + 1, 0, 1, '[', ']');
            proof {
                lemma_bracket_span_end(s, k + 1, 0, 1, '[', ']');
            }
            seq!['['] + label_text(inner) + seq![']'] + diagram_line_from(s, j)
        } else if c == '(' {
            let (j, inner) = bracket_span(s, k + 1, 0, 1, '(', ')');
            proof {
                lemma_bracket_span_end(s, k + 1, 0, 1, '(', ')');
            }
            seq!['('] + remove_forbidden(inner) + seq![')'] + diagram_line_from(s, j)
        } else {
            seq![c] + diagram_line_from(s, k + 1)
        }
    }
}

/// What `sanitize_diagram_line` returns.
pub open spec fn diagram_line_text(s: Seq<char>) -> Seq<char> {
    diagram_line_from(s, 0)
}

fn scan_span(s: &[char], start: usize, open: char, close: char) -> (r: (usize, Vec<char>))
    requires
        start <= s@.len(),
        open != close,
    ensures
        (r.0 as int, r.1@) == bracket_span(s@, start as int, 0, 1, open, close),
{
    let mut inner: Vec<char> = Vec::new();
    let mut k = start;
    let mut taken: usize = 0;
    let mut depth: usize = 1;
    while taken < 512 && k < s.len()
        invariant
            start <= k <= s@.len(),
            taken <= 512,
            1 <= depth,
            depth <= taken + 1,
            ({
                let (j, r) = bracket_span(s@, k as int, taken as nat, depth as nat, open, close);
                bracket_span(s@, start as int, 0, 1, open, close) == (j, inner@ + r)
            }),
        decreases s.len() - k,
    {
        let c = s[k];
        if c == close && depth <= 1 {
            assert(inner@ + Seq::<char>::empty() =~= inner@);
            return (k + 1, inner);
        }
        let ghost d: nat = if c == open {
            (depth + 1) as nat
        } else if c == close {
            (depth - 1) as nat
        } else {
            depth as nat
        };
        let ghost rest = bracket_span(s@, k + 1, taken as nat + 1, d, open, close);
        assert(inner@.push(c) + rest.1 =~= inner@ + (seq![c] + rest.1));
        if c == open {
            depth = depth + 1;
        } else if c == close {
            depth = depth - 1;
        }
        inner.push(c);
        k = k + 1;
        taken = taken + 1;
    }
    assert(inner@ + Seq::<char>::empty() =~= inner@);
    (k, inner)
}

fn remove_forbidden_chars(s: &[char]) -> (r: Vec<char>)
    ensures
        r@ == remove_forbidden(s@),
{
    let mut out: Vec<char> = Vec::new();
    let mut i: usize = 0;
    while i < s.len()
        invariant
            i <= s@.len(),
            out@ == remove_forbidden(s@.take(i as int)),
        decreases s.len() - i,
    {
        assert(s@.take(i + 1).drop_last() =~= s@.take(i as int));
        if !forbidden_char(s[i]) {
            out.push(s[i]);
        }
        i = i + 1;
    }
    assert(s@.take(s@.len() as int) =~= s@);
    out
}

fn sanitize_diagram_line(s: &[char]) -> (r: Vec<char>)
    ensures
        r@ == diagram_line_text(s@),
{
    let mut out: Vec<char> = Vec::new();
    let mut i: usize = 0;
    while i < s.len()
        invariant
            i <= s@.len(),
            out@ + diagram_line_from(s@, i as int) == diagram_line_text(s@),
        decreases s.len() - i,
    {
        let c = s[i];
        let ghost prev = out@;
        if forbidden_char(c) {
            i = i + 1;
        } else if c == '[' {
            let (j, inner) = scan_span(s, i + 1, '[', ']');
            proof {
                lemma_bracket_span_end(s@, i + 1, 0, 1, '[', ']');
            }
            out.push('[');
            let lab = sanitize_label_chars(&inner);
            push_all(&mut out, &lab);
            out.push(']');
            assert(out@ + diagram_line_from(s@, j as int) =~= prev + diagram_line_from(s@, i as int));
            i = j;
        } else if c == '(' {
            let (j, inner) = scan_span(s, i + 1, '(', ')');
            proof {
                lemma_bracket_span_end(s@, i + 1, 0, 1, '(', ')');
            }
            out.push('(');
            let scrubbed = remove_forbidden_chars(&inner);
            push_all(&mut out, &scrubbed);
            out.push(')');
            assert(out@ + diagram_line_from(s@, j as int) =~= prev + diagram_line_from(s@, i as int));
            i = j;
        } else {
            out.push(c);
            assert(out@ + diagram_line_from(s@, i + 1) =~= prev + diagram_line_from(s@, i as int));
            i = i + 1;
        }
    }
    assert(out@ + diagram_line_from(s@, i as int) =~= out@);
    out
}

/// `s` holds none of `"`, `#`, `;`.
pub open spec fn no_forbidden(s: Seq<char>) -> bool {
    forall|i: int| 0 <= i < s.len() ==> !is_forbidden(#[trigger] s[i])
}

/// Concatenation keeps `no_forbidden`.
pub proof fn lemma_no_forbidden_concat(a: Seq<char>, b: Seq<char>)
    requires
        no_forbidden(a),
        no_forbidden(b),
    ensures
        no_forbidden(a + b),
{
    assert forall|i: int| 0 <= i < (a + b).len() implies !is_forbidden(#[trigger] (a + b)[i]) by {
        if i < a.len() {
            assert((a + b)[i] == a[i]);
        } else {
            assert((a + b)[i] == b[i - a.len()]);
        }
    }
}

/// `remove_forbidden` leaves none of `"`, `#`, `;`.
pub proof fn lemma_remove_forbidden(s: Seq<char>)
    ensures
        no_forbidden(remove_forbidden(s)),
    decreases s.len(),
{
    if s.len() > 0 {
        lemma_remove_forbidden(s.drop_last());
        if !is_forbidden(s.last()) {
            lemma_no_forbidden_concat(remove_forbidden(s.drop_last()), seq![s.last()]);
            assert(remove_forbidden(s.drop_last()).push(s.last()) =~= remove_forbidden(s.drop_last())
                + seq![s.last()]);
        }
    }
}

/// A sanitized diagram line holds none of `"`, `#`, `;`.
pub proof fn lemma_diagram_line_clean(s: Seq<char>, k: int)
    ensures
        no_forbidden(diagram_line_from(s, k)),
    decreases s.len() - k,
{
    if 0 <= k < s.len() {
        let c = s[k];
        if is_forbidden(c) {
            lemma_diagram_line_clean(s, k + 1);
        } else if c == '[' || c == '(' {
            let close = if c == '[' {
                ']'
            } else {
                ')'
            };
            let (j, inner) = bracket_span(s, k + 1, 0, 1, c, close);
            lemma_bracket_span_end(s, k + 1, 0, 1, c, close);
            lemma_diagram_line_clean(s, j);
            lemma_label_text_safe(inner);
            lemma_remove_forbidden(inner);
            let mid = if c == '[' {
                label_text(inner)
            } else {
                remove_forbidden(inner)
            };
            lemma_no_forbidden_concat(seq![c], mid);
            lemma_no_forbidden_concat(seq![c] + mid, seq![close]);
            lemma_no_forbidden_concat(seq![c] + mid + seq![close], diagram_line_from(s, j));
        } else {
            lemma_diagram_line_clean(s, k + 1);
            lemma_no_forbidden_concat(seq![c], diagram_line_from(s, k + 1));
        }
    }
}

// ---------------------------------------------------------------------------
// sequence participants
// ---------------------------------------------------------------------------

/// `kw {id}` or `kw {id} as {label}` for the text after the keyword.
pub open spec fn decl_text(kw: Seq<char>, rest: Seq<char>) -> Seq<char> {
    match crate::text::find(rest, " as "@) {
        Some(i) => kw + " "@ + participant_id_text(trim(rest.take(i))) + " as "@ + label_text(
            rest.skip(i + 4),
        ),
        None => kw + " "@ + participant_id_text(rest),
    }
}

/// What `sanitize_participant_declaration` returns.
pub open spec fn declaration_text(line: Seq<char>) -> Seq<char> {
    let t = trim(line);
    if crate::text::starts_with(t, "participant "@) {
        decl_text("participant"@, trim(t.skip(12)))
    } else if crate::text::starts_with(t, "actor "@) {
        decl_text("actor"@, trim(t.skip(6)))
    } else {
        diagram_line_text(t)
    }
}

fn decl_chars(kw: &str, rest: &[char]) -> (r: Vec<char>)
    ensures
        r@ == decl_text(kw@, rest@),
{
    let mut out: Vec<char> = Vec::new();
    push_str(&mut out, kw);
    out.push(' ');
    match crate::text::find_str(rest, " as ", 0) {
        Some(i) => {
            proof {
                crate::text::lemma_find_from(rest@, " as "@, 0);
                reveal_strlit(" as ");
                assert(" as "@.len() == 4);
                assert(i + 4 <= rest@.len());
            }
            let before = slice_chars(rest, 0, i);
            let id_t = trimmed(&before);
            let id = sanitize_participant_id(&id_t);
            push_all(&mut out, &id);
            push_str(&mut out, " as ");
            let n = rest.len();
            let after = slice_chars(rest, i + 4, n);
            let lab = sanitize_label_chars(&after);
            push_all(&mut out, &lab);
            assert(before@ =~= rest@.take(i as int));
            assert(after@ =~= rest@.skip(i + 4));
        },
        None => {
            let id = sanitize_participant_id(rest);
            push_all(&mut out, &id);
        },
    }
    assert(seq![' '] =~= " "@) by {
        reveal_strlit(" ");
    }
    out
}

fn sanitize_participant_declaration(line: &[char]) -> (r: Vec<char>)
    ensures
        r@ == declaration_text(line@),
{
    let t = trimmed(line);
    if crate::text::starts_with_str(&t, "participant ") {
        proof {
            reveal_strlit("participant ");
        }
        let rest = slice_chars(&t, 12, t.len());
        let rt = trimmed(&rest);
        assert(rest@ =~= t@.skip(12));
        decl_chars("participant", &rt)
    } else if crate::text::starts_with_str(&t, "actor ") {
        proof {
            reveal_strlit("actor ");
        }
        let rest = slice_chars(&t, 6, t.len());
        let rt = trimmed(&rest);
        assert(rest@ =~= t@.skip(6));
        decl_chars("actor", &rt)
    } else {
        sanitize_diagram_line(&t)
    }
}

/// The id declared by a participant line, when there is one.
pub open spec fn declared_id(line: Seq<char>) -> Option<Seq<char>> {
    let t = trim(line);
    let rest = if crate::text::starts_with(t, "participant "@) {
        Some(t.skip(12))
    } else if crate::text::starts_with(t, "actor "@) {
        Some(t.skip(6))
    } else {
        None
    };
    match rest {
        None => None,
        Some(r) => {
            let id = trim(
                match crate::text::find(r, " as "@) {
                    Some(i) => r.take(i),
                    None => r,
                },
            );
            if id.len() == 0 {
                None
            } else {
                Some(id)
            }
        },
    }
}

fn participant_id_from_declaration(line: &[char]) -> (r: Option<Vec<char>>)
    ensures
        match r {
            Some(v) => declared_id(line@) == Some(v@),
            None => declared_id(line@) is None,
        },
{
    let t = trimmed(line);
    let rest = if crate::text::starts_with_str(&t, "participant ") {
        proof {
            reveal_strlit("participant ");
        }
        assert(t@.subrange(12, t@.len() as int) =~= t@.skip(12));
        slice_chars(&t, 12, t.len())
    } else if crate::text::starts_with_str(&t, "actor ") {
        proof {
            reveal_strlit("actor ");
        }
        assert(t@.subrange(6, t@.len() as int) =~= t@.skip(6));
        slice_chars(&t, 6, t.len())
    } else {
        return None;
    };
    let head = match crate::text::find_str(&rest, " as ", 0) {
        Some(i) => {
            proof {
                crate::text::lemma_find_from(rest@, " as "@, 0);
            }
            let h = slice_chars(&rest, 0, i);
            assert(h@ =~= rest@.take(i as int));
            h
        },
        None => rest,
    };
    let id = trimmed(&head);
    if id.len() == 0 {
        None
    } else {
        Some(id)
    }
}

/// The last whitespace-separated token of `s` (`split_whitespace().last()`).
pub open spec fn token_suffix(u: Seq<char>) -> Seq<char>
    decreases u.len(),
{
    if u.len() == 0 || crate::text::is_ws(u.last()) {
        Seq::empty()
    } else {
        token_suffix(u.drop_last()).push(u.last())
    }
}

/// `split_whitespace().last()`.
pub open spec fn last_token(s: Seq<char>) -> Option<Seq<char>> {
    let u = trim_end(s);
    if u.len() == 0 {
        None
    } else {
        Some(token_suffix(u))
    }
}

fn last_token_chars(v: &[char]) -> (r: Option<Vec<char>>)
    ensures
        match r {
            Some(t) => last_token(v@) == Some(t@),
            None => last_token(v@) is None,
        },
{
    let b = crate::text::trim_end_idx(v, 0, v.len());
    assert(v@.subrange(0, v@.len() as int) =~= v@);
    if b == 0 {
        return None;
    }
    let mut a = b;
    assert(v@.subrange(b as int, b as int) =~= Seq::<char>::empty());
    while a > 0 && !crate::text::is_ws_char(v[a - 1])
        invariant
            a <= b <= v@.len(),
            token_suffix(v@.subrange(0, b as int)) == token_suffix(v@.subrange(0, a as int))
                + v@.subrange(a as int, b as int),
        decreases a,
    {
        assert(v@.subrange(0, a as int).drop_last() =~= v@.subrange(0, a - 1));
        assert(v@.subrange(a - 1, b as int) =~= seq![v@[a - 1]] + v@.subrange(a as int, b as int));
        a = a - 1;
    }
    assert(token_suffix(v@.subrange(0, a as int)) =~= Seq::<char>::empty());
    Some(slice_chars(v, a, b))
}

/// Arrow separators tried, in order, on sequence message lines.
pub open spec fn arrow(i: int) -> Seq<char> {
    if i == 0 {
        "<<->>"@
    } else if i == 1 {
        "<<-->>"@
    } else if i == 2 {
        "->>"@
    } else if i == 3 {
        "-->>"@
    } else if i == 4 {
        "-)"@
    } else if i == 5 {
        "--)"@
    } else if i == 6 {
        "-->"@
    } else {
        "->"@
    }
}

fn arrow_str(i: usize) -> (r: &'static str)
    requires
        i < 8,
    ensures
        r@ == arrow(i as int),
{
    if i == 0 {
        "<<->>"
    } else if i == 1 {
        "<<-->>"
    } else if i == 2 {
        "->>"
    } else if i == 3 {
        "-->>"
    } else if i == 4 {
        "-)"
    } else if i == 5 {
        "--)"
    } else if i == 6 {
        "-->"
    } else {
        "->"
    }
}

/// The endpoints of a message line, trying the arrows from index `i` on.
pub open spec fn arrow_refs(t: Seq<char>, i: int) -> Option<Seq<Seq<char>>>
    decreases 8 - i,
{
    if i < 0 || i >= 8 {
        None
    } else {
        match crate::text::find(t, arrow(i)) {
            None => arrow_refs(t, i + 1),
            Some(p) => {
                let left = t.take(p);
                let right = t.skip(p + arrow(i).len());
                match last_token(left) {
                    None => None,
                    Some(from) => {
                        let to = first_token(crate::text::split_char(right, ':')[0]);
                        if from.len() == 0 || to.len() == 0 {
                            None
                        } else {
                            Some(seq![from, to])
                        }
                    },
                }
            },
        }
    }
}

/// Drop the `note` placement words.
pub open spec fn note_target(after: Seq<char>) -> Seq<char> {
    if crate::text::starts_with(after, "left of "@) {
        after.skip(8)
    } else if crate::text::starts_with(after, "right of "@) {
        after.skip(9)
    } else if crate::text::starts_with(after, "over "@) {
        after.skip(5)
    } else {
        after
    }
}

/// Trimmed non-empty pieces.
pub open spec fn nonempty_trimmed(ps: Seq<Seq<char>>) -> Seq<Seq<char>>
    decreases ps.len(),
{
    if ps.len() == 0 {
        Seq::empty()
    } else if trim(ps.last()).len() == 0 {
        nonempty_trimmed(ps.drop_last())
    } else {
        nonempty_trimmed(ps.drop_last()).push(trim(ps.last()))
    }
}

/// Participant ids a sequence line refers to, if it is message-like.
pub open spec fn line_refs(line: Seq<char>) -> Option<Seq<Seq<char>>> {
    let t = trim(line);
    if t.len() == 0 || crate::text::starts_with(t, "sequenceDiagram"@) || is_participant_line(t) {
        None
    } else if crate::text::starts_with(crate::text::lower_seq(t), "note "@) {
        let after = note_target(trim_start(t.skip(5)));
        let ids_part = trim(crate::text::split_char(after, ':')[0]);
        let ids = nonempty_trimmed(crate::text::split_char(ids_part, ','));
        if ids.len() == 0 {
            None
        } else {
            Some(ids)
        }
    } else {
        arrow_refs(t, 0)
    }
}

/// `split_char` has at least one piece.
pub proof fn lemma_split_nonempty(s: Seq<char>, c: char)
    ensures
        crate::text::split_char(s, c).len() > 0,
{
}

fn nonempty_trimmed_pieces(ps: &Vec<Vec<char>>) -> (r: Vec<Vec<char>>)
    ensures
        crate::text::views(r@) == nonempty_trimmed(crate::text::views(ps@)),
{
    let mut out: Vec<Vec<char>> = Vec::new();
    let mut i: usize = 0;
    while i < ps.len()
        invariant
            i <= ps@.len(),
            crate::text::views(out@) == nonempty_trimmed(crate::text::views(ps@).take(i as int)),
        decreases ps.len() - i,
    {
        assert(crate::text::views(ps@).take(i + 1).drop_last() =~= crate::text::views(ps@).take(
            i as int,
        ));
        let t = trimmed(&ps[i]);
        if t.len() > 0 {
            let ghost prev = out@;
            out.push(t);
            assert(crate::text::views(out@) =~= crate::text::views(prev).push(t@));
        }
        i = i + 1;
    }
    assert(crate::text::views(ps@).take(ps@.len() as int) =~= crate::text::views(ps@));
    out
}

fn arrow_refs_chars(t: &[char]) -> (r: Option<Vec<Vec<char>>>)
    ensures
        match r {
            Some(v) => arrow_refs(t@, 0) == Some(crate::text::views(v@)),
            None => arrow_refs(t@, 0) is None,
        },
{
    let mut i: usize = 0;
    while i < 8
        invariant
            i <= 8,
            arrow_refs(t@, 0) == arrow_refs(t@, i as int),
        decreases 8 - i,
    {
        let sep = arrow_str(i);
        match crate::text::find_str(t, sep, 0) {
            None => {
                i = i + 1;
            },
            Some(p) => {
                proof {
                    crate::text::lemma_find_from(t@, sep@, 0);
                }
                let sep_len = chars_of(sep).len();
                assert(p + sep_len <= t@.len());
                let left = slice_chars(t, 0, p);
                let tn = t.len();
                let right = slice_chars(t, p + sep_len, tn);
                assert(left@ =~= t@.take(p as int));
                assert(right@ =~= t@.skip(p + sep@.len()));
                match last_token_chars(&left) {
                    None => {
                        return None;
                    },
                    Some(from) => {
                        let pieces = crate::text::split_at_char(&right, ':');
                        proof {
                            lemma_split_nonempty(right@, ':');
                        }
                        assert(crate::text::views(pieces@)[0] == pieces@[0]@);
                        let to = first_token_chars(&pieces[0]);
                        if from.len() == 0 || to.len() == 0 {
                            return None;
                        }
                        let mut v: Vec<Vec<char>> = Vec::new();
                        v.push(from);
                        v.push(to);
                        assert(crate::text::views(v@) =~= seq![from@, to@]);
                        return Some(v);
                    },
                }
            },
        }
    }
    None
}

fn sequence_line_participant_refs(line: &[char]) -> (r: Option<Vec<Vec<char>>>)
    ensures
        match r {
            Some(v) => line_refs(line@) == Some(crate::text::views(v@)),
            None => line_refs(line@) is None,
        },
{
    let t = trimmed(line);
    if t.len() == 0 || crate::text::starts_with_str(&t, "sequenceDiagram") || participant_line_check(
        &t,
    ) {
        return None;
    }
    let lower = crate::text::lower_chars(&t);
    if crate::text::starts_with_str(&lower, "note ") {
        proof {
            reveal_strlit("note ");
        }
        assert(lower@.len() == t@.len());
        let rest = slice_chars(&t, 5, t.len());
        assert(rest@ =~= t@.skip(5));
        let after0 = crate::text::trimmed_start(&rest);
        let after = if crate::text::starts_with_str(&after0, "left of ") {
            proof {
                reveal_strlit("left of ");
            }
            assert(after0@.subrange(8, after0@.len() as int) =~= after0@.skip(8));
            slice_chars(&after0, 8, after0.len())
        } else if crate::text::starts_with_str(&after0, "right of ") {
            proof {
                reveal_strlit("right of ");
            }
            assert(after0@.subrange(9, after0@.len() as int) =~= after0@.skip(9));
            slice_chars(&after0, 9, after0.len())
        } else if crate::text::starts_with_str(&after0, "over ") {
            proof {
                reveal_strlit("over ");
            }
            assert(after0@.subrange(5, after0@.len() as int) =~= after0@.skip(5));
            slice_chars(&after0, 5, after0.len())
        } else {
            after0
        };
        let pieces = crate::text::split_at_char(&after, ':');
        proof {
            lemma_split_nonempty(after@, ':');
        }
        assert(crate::text::views(pieces@)[0] == pieces@[0]@);
        let ids_part = trimmed(&pieces[0]);
        let parts = crate::text::split_at_char(&ids_part, ',');
        let ids = nonempty_trimmed_pieces(&parts);
        if ids.len() == 0 {
            return None;
        }
        return Some(ids);
    }
    arrow_refs_chars(&t)
}

// ---------------------------------------------------------------------------
// whole diagrams
// ---------------------------------------------------------------------------

/// `\r\n` and lone `\r` turned into `\n`.
pub open spec fn normalize_newlines(s: Seq<char>) -> Seq<char> {
    crate::text::replace(crate::text::replace(s, "\r\n"@, "\n"@), "\r"@, "\n"@)
}

/// The first line that is not blank, trimmed (empty when there is none).
pub open spec fn first_nonblank(ls: Seq<Seq<char>>) -> Seq<char>
    decreases ls.len(),
{
    if ls.len() == 0 {
        Seq::empty()
    } else if trim(ls[0]).len() > 0 {
        trim(ls[0])
    } else {
        first_nonblank(ls.drop_first())
    }
}

/// Every reference is a kept participant id.
pub open spec fn all_kept(refs: Seq<Seq<char>>, kept: Seq<Seq<char>>) -> bool {
    forall|i: int| 0 <= i < refs.len() ==> kept.contains(#[trigger] refs[i])
}

/// State of the line pass: lines kept so far, participant declarations
/// seen, and the ids of the kept declarations.
pub struct MermaidPass {
    pub lines: Seq<Seq<char>>,
    pub declared: nat,
    pub kept: Seq<Seq<char>>,
}

/// One line of the pass. Blank lines become empty; in a sequence diagram a
/// declaration beyond the sixth is dropped, the others are re-emitted
/// sanitized (their id is remembered), and a message line that names an id
/// that was not kept is dropped; every other line is sanitized.
pub open spec fn mermaid_step(st: MermaidPass, line: Seq<char>, is_seq: bool) -> MermaidPass {
    let t = trim_end(line);
    if trim(t).len() == 0 {
        MermaidPass { lines: st.lines.push(Seq::empty()), ..st }
    } else if is_seq && is_participant_line(t) {
        if st.declared + 1 > 6 {
            MermaidPass { declared: st.declared + 1, ..st }
        } else {
            let decl = declaration_text(t);
            MermaidPass {
                lines: st.lines.push(decl),
                declared: st.declared + 1,
                kept: match declared_id(decl) {
                    Some(id) => st.kept.push(id),
                    None => st.kept,
                },
            }
        }
    } else if is_seq && (line_refs(t) matches Some(refs) && !all_kept(refs, st.kept)) {
        st
    } else {
        MermaidPass { lines: st.lines.push(diagram_line_text(t)), ..st }
    }
}

/// The pass over all lines.
pub open spec fn mermaid_pass(ls: Seq<Seq<char>>, is_seq: bool) -> MermaidPass
    decreases ls.len(),
{
    if ls.len() == 0 {
        MermaidPass { lines: Seq::empty(), declared: 0, kept: Seq::empty() }
    } else {
        mermaid_step(mermaid_pass(ls.drop_last(), is_seq), ls.last(), is_seq)
    }
}

/// In a sequence diagram the pass keeps the ids of at most
/// `MAX_SEQUENCE_PARTICIPANTS` declarations, the first ones met.
pub proof fn lemma_pass_participant_cap(ls: Seq<Seq<char>>, is_seq: bool)
    ensures
        mermaid_pass(ls, is_seq).kept.len() <= 6,
        mermaid_pass(ls, is_seq).kept.len() <= mermaid_pass(ls, is_seq).declared,
    decreases ls.len(),
{
    if ls.len() > 0 {
        lemma_pass_participant_cap(ls.drop_last(), is_seq);
    }
}

/// Trailing empty lines removed.
pub open spec fn drop_trailing_empty(ls: Seq<Seq<char>>) -> Seq<Seq<char>>
    decreases ls.len(),
{
    if ls.len() > 0 && ls.last().len() == 0 {
        drop_trailing_empty(ls.drop_last())
    } else {
        ls
    }
}

/// `join` with a separator.
pub open spec fn join(ls: Seq<Seq<char>>, sep: Seq<char>) -> Seq<char>
    decreases ls.len(),
{
    if ls.len() == 0 {
        Seq::empty()
    } else if ls.len() == 1 {
        ls[0]
    } else {
        join(ls.drop_last(), sep) + sep + ls.last()
    }
}

/// What `sanitize_mermaid` returns.
pub open spec fn mermaid_text(source: Seq<char>) -> Seq<char> {
    let ls = crate::text::lines(normalize_newlines(source));
    let is_seq = first_token(first_nonblank(ls)) == "sequenceDiagram"@;
    trim_end(join(drop_trailing_empty(mermaid_pass(ls, is_seq).lines), "\n"@))
}

fn ids_all_kept(refs: &Vec<Vec<char>>, kept: &Vec<Vec<char>>) -> (r: bool)
    ensures
        r == all_kept(crate::text::views(refs@), crate::text::views(kept@)),
{
    let mut i: usize = 0;
    while i < refs.len()
        invariant
            i <= refs@.len(),
            forall|a: int|
                0 <= a < i ==> crate::text::views(kept@).contains(#[trigger] crate::text::views(refs@)[a]),
        decreases refs.len() - i,
    {
        let mut found = false;
        let mut j: usize = 0;
        while j < kept.len()
            invariant
                j <= kept@.len(),
                i < refs@.len(),
                found == (exists|b: int| 0 <= b < j && crate::text::views(kept@)[b] == refs@[i as int]@),
            decreases kept.len() - j,
        {
            if crate::text::eq_chars(&kept[j], &refs[i]) {
                found = true;
            }
            assert(crate::text::views(kept@)[j as int] == kept@[j as int]@);
            j = j + 1;
        }
        assert(crate::text::views(refs@)[i as int] == refs@[i as int]@);
        if !found {
            assert(!crate::text::views(kept@).contains(crate::text::views(refs@)[i as int]));
            return false;
        }
        i = i + 1;
    }
    true
}

fn push_line(out: &mut Vec<Vec<char>>, l: Vec<char>)
    ensures
        crate::text::views(final(out)@) == crate::text::views(old(out)@).push(l@),
{
    let ghost prev = out@;
    out.push(l);
    assert(crate::text::views(out@) =~= crate::text::views(prev).push(l@));
}

fn join_lines(ls: &Vec<Vec<char>>, upto: usize) -> (r: Vec<char>)
    requires
        upto <= ls@.len(),
    ensures
        r@ == join(crate::text::views(ls@).take(upto as int), "\n"@),
{
    let mut out: Vec<char> = Vec::new();
    let mut i: usize = 0;
    proof {
        reveal_strlit("\n");
    }
    while i < upto
        invariant
            i <= upto <= ls@.len(),
            out@ == join(crate::text::views(ls@).take(i as int), "\n"@),
            "\n"@ == seq!['\n'],
        decreases upto - i,
    {
        let ghost vs = crate::text::views(ls@);
        assert(vs.take(i + 1).drop_last() =~= vs.take(i as int));
        if i > 0 {
            out.push('\n');
        }
        push_all(&mut out, &ls[i]);
        assert(vs[i as int] == ls@[i as int]@);
        if i == 0 {
            assert(out@ =~= join(vs.take(1), "\n"@));
        }
        i = i + 1;
    }
    out
}

pub fn sanitize_mermaid_chars(source: &[char]) -> (r: Vec<char>)
    ensures
        r@ == mermaid_text(source@),
{
    proof {
        reveal_strlit("\r\n");
        reveal_strlit("\r");
    }
    let a = crate::text::replace_str(source, "\r\n", "\n");
    let normalized = crate::text::replace_str(&a, "\r", "\n");
    let ls = crate::text::lines_of(&normalized);
    let ghost vls = crate::text::views(ls@);
    // the first non-blank line decides the diagram kind
    let mut f: usize = 0;
    assert(vls.skip(0) =~= vls);
    while f < ls.len() && trimmed(&ls[f]).len() == 0
        invariant
            f <= ls@.len(),
            vls == crate::text::views(ls@),
            first_nonblank(vls) == first_nonblank(vls.skip(f as int)),
        decreases ls.len() - f,
    {
        assert(vls.skip(f as int).drop_first() =~= vls.skip(f + 1));
        assert(vls.skip(f as int)[0] == ls@[f as int]@);
        f = f + 1;
    }
    let first = if f < ls.len() {
        assert(vls.skip(f as int)[0] == ls@[f as int]@);
        trimmed(&ls[f])
    } else {
        assert(vls.skip(f as int).len() == 0);
        Vec::new()
    };
    let kind = first_token_chars(&first);
    let is_seq = eq_str(&kind, "sequenceDiagram");

    let mut out: Vec<Vec<char>> = Vec::new();
    let mut declared: usize = 0;
    let mut kept: Vec<Vec<char>> = Vec::new();
    let mut i: usize = 0;
    while i < ls.len()
        invariant
            i <= ls@.len(),
            vls == crate::text::views(ls@),
            declared <= i,
            ({
                let st = mermaid_pass(vls.take(i as int), is_seq);
                &&& crate::text::views(out@) == st.lines
                &&& declared == st.declared
                &&& crate::text::views(kept@) == st.kept
            }),
        decreases ls.len() - i,
    {
        assert(vls.take(i + 1).drop_last() =~= vls.take(i as int));
        assert(vls[i as int] == ls@[i as int]@);
        let t = crate::text::trimmed_end(&ls[i]);
        if trimmed(&t).len() == 0 {
            push_line(&mut out, Vec::new());
        } else if is_seq && participant_line_check(&t) {
            declared = declared + 1;
            if declared <= MAX_SEQUENCE_PARTICIPANTS {
                let decl = sanitize_participant_declaration(&t);
                match participant_id_from_declaration(&decl) {
                    Some(id) => {
                        push_line(&mut kept, id);
                    },
                    None => {},
                }
                push_line(&mut out, decl);
            }
        } else {
            let mut drop = false;
            if is_seq {
                match sequence_line_participant_refs(&t) {
                    Some(refs) => {
                        if !ids_all_kept(&refs, &kept) {
                            drop = true;
                        }
                    },
                    None => {},
                }
            }
            if !drop {
                let l = sanitize_diagram_line(&t);
                push_line(&mut out, l);
            }
        }
        i = i + 1;
    }
    assert(vls.take(ls@.len() as int) =~= vls);
    let ghost all = crate::text::views(out@);
    let mut n = out.len();
    assert(all.take(n as int) =~= all);
    while n > 0 && out[n - 1].len() == 0
        invariant
            n <= out@.len(),
            all == crate::text::views(out@),
            drop_trailing_empty(all) == drop_trailing_empty(all.take(n as int)),
        decreases n,
    {
        assert(all.take(n as int).drop_last() =~= all.take(n - 1));
        assert(all.take(n as int).last() == out@[n - 1]@);
        n = n - 1;
    }
    proof {
        if n > 0 {
            assert(all.take(n as int).last() == out@[n - 1]@);
        }
        assert(drop_trailing_empty(all.take(n as int)) == all.take(n as int));
    }
    let joined = join_lines(&out, n);
    crate::text::trimmed_end(&joined)
}

/// Sanitize a Mermaid diagram body for safer rendering.
///
/// Line endings become `\n`; each line is scrubbed (see
/// `diagram_line_text`); in a `sequenceDiagram` declarations beyond
/// `MAX_SEQUENCE_PARTICIPANTS` are dropped together with message lines that
/// reference ids that were not kept; trailing blank lines and trailing
/// whitespace are removed. The result holds none of `"`, `#`, `;`.
pub fn sanitize_mermaid(source: &str) -> (r: String)
    ensures
        r@ == mermaid_text(source@),
        no_forbidden(r@),
{
    proof {
        lemma_mermaid_text_clean(source@);
    }
    let v = chars_of(source);
    let out = sanitize_mermaid_chars(&v);
    string_of(&out)
}

/// Text after `"```mermaid"` has been found at `st` in `s`, and so on: the
/// rendering of fenced mermaid blocks in markdown. Each complete block
/// (opening fence line, body, closing fence) has its body sanitized; a body
/// that still fails `validate_mermaid` is replaced by a stub diagram.
/// Everything outside complete blocks is kept as it is.
pub open spec fn markdown_text(s: Seq<char>) -> Seq<char>
    decreases s.len(),
{
    match crate::text::find(s, "```mermaid"@) {
        None => s,
        Some(st) => {
            proof {
                crate::text::lemma_find_from(s, "```mermaid"@, 0);
                reveal_strlit("```mermaid");
            }
            let ao = s.skip(st + 10);
            match crate::text::char_from(ao, '\n', 0) {
                None => s,
                Some(i) => {
                    proof {
                        crate::text::lemma_char_from(ao, '\n', 0);
                    }
                    let afl = ao.skip(i + 1);
                    match crate::text::find(afl, "```"@) {
                        None => s,
                        Some(e) => {
                            proof {
                                crate::text::lemma_find_from(afl, "```"@, 0);
                                reveal_strlit("```");
                            }
                            s.take(st) + "```mermaid\n"@ + mermaid_block(afl.take(e)) + "```"@
                                + markdown_text(afl.skip(e + 3))
                        },
                    }
                },
            }
        },
    }
}

/// The re-embedded body of one mermaid block.
pub open spec fn mermaid_block(body: Seq<char>) -> Seq<char> {
    let san = mermaid_text(body);
    if validate_issues(san).len() == 0 {
        if crate::text::ends_with(san, "\n"@) {
            san
        } else {
            san + "\n"@
        }
    } else {
        "%% invalid mermaid — replaced by sanitizer\n"@ + "flowchart LR\n  X0[Invalid diagram dropped]\n"@
    }
}

fn mermaid_block_chars(body: &[char]) -> (r: Vec<char>)
    ensures
        r@ == mermaid_block(body@),
{
    let san = sanitize_mermaid_chars(body);
    proof {
        crate::text::lemma_trim_idempotent(san@);
    }
    let t = trimmed(&san);
    let valid = validate_chars(&t).valid;
    assert(validate_issues(san@) == validate_issues(t@));
    let mut out: Vec<char> = Vec::new();
    if valid {
        push_all(&mut out, &san);
        if !crate::text::ends_with_str(&san, "\n") {
            push_str(&mut out, "\n");
        }
    } else {
        push_str(&mut out, "%% invalid mermaid — replaced by sanitizer\n");
        push_str(&mut out, "flowchart LR\n  X0[Invalid diagram dropped]\n");
    }
    out
}

fn sanitize_markdown_chars(markdown: &[char]) -> (r: Vec<char>)
    ensures
        r@ == markdown_text(markdown@),
{
    let mut out: Vec<char> = Vec::new();
    let mut rest: Vec<char> = slice_chars(markdown, 0, markdown.len());
    assert(rest@ =~= markdown@);
    proof {
        reveal_strlit("```mermaid");
        reveal_strlit("```");
    }
    loop
        invariant
            out@ + markdown_text(rest@) == markdown_text(markdown@),
            "```mermaid"@.len() == 10,
            "```"@.len() == 3,
        decreases rest@.len(),
    {
        let ghost r0 = rest@;
        match crate::text::find_str(&rest, "```mermaid", 0) {
            None => {
                push_all(&mut out, &rest);
                return out;
            },
            Some(st) => {
                proof {
                    crate::text::lemma_find_from(rest@, "```mermaid"@, 0);
                }
                let n = rest.len();
                let ao = slice_chars(&rest, st + 10, n);
                assert(ao@ =~= rest@.skip(st + 10));
                match find_char_vec(&ao, '\n') {
                    None => {
                        push_all(&mut out, &rest);
                        return out;
                    },
                    Some(i) => {
                        proof {
                            crate::text::lemma_char_from(ao@, '\n', 0);
                        }
                        let an = ao.len();
                        let afl = slice_chars(&ao, i + 1, an);
                        assert(afl@ =~= ao@.skip(i + 1));
                        match crate::text::find_str(&afl, "```", 0) {
                            None => {
                                push_all(&mut out, &rest);
                                return out;
                            },
                            Some(e) => {
                                proof {
                                    crate::text::lemma_find_from(afl@, "```"@, 0);
                                }
                                let ghost prev = out@;
                                let head = slice_chars(&rest, 0, st);
                                push_all(&mut out, &head);
                                push_str(&mut out, "```mermaid\n");
                                let body = slice_chars(&afl, 0, e);
                                let block = mermaid_block_chars(&body);
                                push_all(&mut out, &block);
                                push_str(&mut out, "```");
                                let fl = afl.len();
                                let next = slice_chars(&afl, e + 3, fl);
                                assert(head@ =~= r0.take(st as int));
                                assert(body@ =~= afl@.take(e as int));
                                assert(next@ =~= afl@.skip(e + 3));
                                assert(out@ + markdown_text(next@) =~= prev + markdown_text(r0));
                                rest = next;
                            },
                        }
                    },
                }
            },
        }
    }
}

fn find_char_vec(v: &Vec<char>, c: char) -> (r: Option<usize>)
    ensures
        r == (match crate::text::char_from(v@, c, 0) {
            Some(k) => Some(k as usize),
            None => None::<usize>,
        }),
{
    crate::text::find_char(v.as_slice(), c, 0)
}

/// Extract fenced `mermaid` blocks from markdown, sanitize each body, and
/// re-embed it. Other text and other fences are left unchanged; a block that
/// is still invalid after sanitizing is replaced by a small valid stub.
pub fn sanitize_markdown_mermaid_blocks(markdown: &str) -> (r: String)
    ensures
        r@ == markdown_text(markdown@),
{
    let v = chars_of(markdown);
    let out = sanitize_markdown_chars(&v);
    string_of(&out)
}

proof fn lemma_id_chars(s: Seq<char>)
    ensures
        forall|i: int| 0 <= i < id_chars(s).len() ==> (is_alnum(#[trigger] id_chars(s)[i]) || id_chars(s)[i] == '_'),
    decreases s.len(),
{
    if s.len() > 0 {
        lemma_id_chars(s.drop_last());
        let p = id_chars(s.drop_last());
        assert forall|i: int| 0 <= i < id_chars(s).len() implies (is_alnum(
            #[trigger] id_chars(s)[i],
        ) || id_chars(s)[i] == '_') by {
            if i < p.len() {
                assert(id_chars(s)[i] == p[i]);
            }
        }
    }
}

proof fn lemma_participant_id_clean(s: Seq<char>)
    ensures
        no_forbidden(participant_id_text(s)),
{
    lemma_id_chars(s);
    let f = id_chars(s);
    let g = if f.len() == 0 {
        seq!['P']
    } else {
        f
    };
    assert(no_forbidden(g));
    if is_digit(g[0]) {
        lemma_no_forbidden_concat(seq!['P'], g);
    }
}

proof fn lemma_declaration_clean(line: Seq<char>)
    ensures
        no_forbidden(declaration_text(line)),
{
    reveal_strlit("participant");
    reveal_strlit("actor");
    reveal_strlit(" ");
    reveal_strlit(" as ");
    let t = trim(line);
    if crate::text::starts_with(t, "participant "@) || crate::text::starts_with(t, "actor "@) {
        let (kw, rest) = if crate::text::starts_with(t, "participant "@) {
            ("participant"@, trim(t.skip(12)))
        } else {
            ("actor"@, trim(t.skip(6)))
        };
        assert(no_forbidden(kw));
        assert(no_forbidden(" "@));
        assert(no_forbidden(" as "@));
        lemma_no_forbidden_concat(kw, " "@);
        match crate::text::find(rest, " as "@) {
            Some(i) => {
                let id = participant_id_text(trim(rest.take(i)));
                let lab = label_text(rest.skip(i + 4));
                lemma_participant_id_clean(trim(rest.take(i)));
                lemma_label_text_safe(rest.skip(i + 4));
                lemma_no_forbidden_concat(kw + " "@, id);
                lemma_no_forbidden_concat(kw + " "@ + id, " as "@);
                lemma_no_forbidden_concat(kw + " "@ + id + " as "@, lab);
            },
            None => {
                lemma_participant_id_clean(rest);
                lemma_no_forbidden_concat(kw + " "@, participant_id_text(rest));
            },
        }
    } else {
        lemma_diagram_line_clean(t, 0);
    }
}

proof fn lemma_pass_clean(ls: Seq<Seq<char>>, is_seq: bool)
    ensures
        forall|i: int|
            0 <= i < mermaid_pass(ls, is_seq).lines.len() ==> no_forbidden(
                #[trigger] mermaid_pass(ls, is_seq).lines[i],
            ),
    decreases ls.len(),
{
    if ls.len() > 0 {
        lemma_pass_clean(ls.drop_last(), is_seq);
        let t = trim_end(ls.last());
        lemma_declaration_clean(t);
        lemma_diagram_line_clean(t, 0);
        assert(no_forbidden(Seq::<char>::empty()));
        let prev = mermaid_pass(ls.drop_last(), is_seq).lines;
        let cur = mermaid_pass(ls, is_seq).lines;
        assert(cur.len() == prev.len() || cur.len() == prev.len() + 1);
        assert forall|i: int| 0 <= i < cur.len() implies no_forbidden(#[trigger] cur[i]) by {
            if i < prev.len() {
                assert(cur[i] == prev[i]);
            }
        }
    }
}

proof fn lemma_drop_trailing_empty(ls: Seq<Seq<char>>)
    ensures
        drop_trailing_empty(ls).len() <= ls.len(),
        drop_trailing_empty(ls) == ls.take(drop_trailing_empty(ls).len() as int),
    decreases ls.len(),
{
    if ls.len() > 0 && ls.last().len() == 0 {
        lemma_drop_trailing_empty(ls.drop_last());
        assert(ls.drop_last().take(drop_trailing_empty(ls).len() as int) =~= ls.take(
            drop_trailing_empty(ls).len() as int,
        ));
    } else {
        assert(ls.take(ls.len() as int) =~= ls);
    }
}

proof fn lemma_join_clean(ls: Seq<Seq<char>>, sep: Seq<char>)
    requires
        no_forbidden(sep),
        forall|i: int| 0 <= i < ls.len() ==> no_forbidden(#[trigger] ls[i]),
    ensures
        no_forbidden(join(ls, sep)),
    decreases ls.len(),
{
    if ls.len() > 1 {
        lemma_join_clean(ls.drop_last(), sep);
        lemma_no_forbidden_concat(join(ls.drop_last(), sep), sep);
        lemma_no_forbidden_concat(join(ls.drop_last(), sep) + sep, ls.last());
    }
}

/// A sanitized diagram holds none of `"`, `#`, `;`.
pub proof fn lemma_mermaid_text_clean(source: Seq<char>)
    ensures
        no_forbidden(mermaid_text(source)),
{
    let ls = crate::text::lines(normalize_newlines(source));
    let is_seq = first_token(first_nonblank(ls)) == "sequenceDiagram"@;
    let kept = mermaid_pass(ls, is_seq).lines;
    lemma_pass_clean(ls, is_seq);
    lemma_drop_trailing_empty(kept);
    let d = drop_trailing_empty(kept);
    assert forall|i: int| 0 <= i < d.len() implies no_forbidden(#[trigger] d[i]) by {
        assert(d[i] == kept[i]);
    }
    reveal_strlit("\n");
    lemma_join_clean(d, "\n"@);
    let j = join(d, "\n"@);
    crate::text::lemma_trim_end_prefix(j);
    assert forall|i: int| 0 <= i < trim_end(j).len() implies !is_forbidden(#[trigger] trim_end(j)[i]) by {
        assert(trim_end(j)[i] == j[i]);
    }
}

/// Whether a body still validates after sanitizing.
pub fn valid_after_sanitize(body: &[char]) -> (r: bool)
    ensures
        r == (validate_issues(mermaid_text(body@)).len() == 0),
{
    let san = sanitize_mermaid_chars(body);
    proof {
        crate::text::lemma_trim_idempotent(san@);
    }
    let t = trimmed(&san);
    validate_chars(&t).valid
}

/// Appending a character to text that does not trim to nothing appends it
/// to the start-trimmed text too.
proof fn lemma_trim_start_push(s: Seq<char>, c: char)
    requires
        trim_start(s).len() > 0,
    ensures
        trim_start(s.push(c)) == trim_start(s).push(c),
    decreases s.len(),
{
    if s.len() > 0 && crate::text::is_ws(s[0]) {
        assert(s.push(c).drop_first() =~= s.drop_first().push(c));
        lemma_trim_start_push(s.drop_first(), c);
    }
}

/// A trailing newline does not change what `validate_mermaid` reports of a
/// non-empty body.
proof fn lemma_validate_newline(s: Seq<char>)
    requires
        trim(s).len() > 0,
    ensures
        validate_issues(s + "\n"@) == validate_issues(s),
{
    reveal_strlit("\n");
    assert(s + "\n"@ =~= s.push('\n'));
    if trim_start(s).len() == 0 {
        assert(trim(s) =~= Seq::<char>::empty());
    }
    lemma_trim_start_push(s, '\n');
    assert(trim_start(s).push('\n').drop_last() =~= trim_start(s));
    assert(trim(s + "\n"@) == trim(s));
}

/// The text put between the fences of one block holds none of `"`, `#`,
/// `;`, and it validates whenever the sanitized body does.
pub proof fn lemma_mermaid_block_clean(b: Seq<char>)
    ensures
        no_forbidden(mermaid_block(b)),
        validate_issues(mermaid_text(b)).len() == 0 ==> validate_issues(mermaid_block(b)).len() == 0,
{
    let san = mermaid_text(b);
    lemma_mermaid_text_clean(b);
    reveal_strlit("\n");
    reveal_strlit("%% invalid mermaid — replaced by sanitizer\n");
    reveal_strlit("flowchart LR\n  X0[Invalid diagram dropped]\n");
    if validate_issues(san).len() == 0 {
        if !crate::text::ends_with(san, "\n"@) {
            assert(no_forbidden("\n"@));
            lemma_no_forbidden_concat(san, "\n"@);
            if trim(san).len() == 0 {
                assert(validate_issues(san).len() == 1);
            }
            lemma_validate_newline(san);
        }
    } else {
        let p = "%% invalid mermaid — replaced by sanitizer\n"@;
        let q = "flowchart LR\n  X0[Invalid diagram dropped]\n"@;
        assert(no_forbidden(p));
        assert(no_forbidden(q));
        lemma_no_forbidden_concat(p, q);
    }
}

/// One complete block at the front of the markdown is rendered and the
/// rest is handled in turn.
proof fn lemma_markdown_front(b: Seq<char>, y: Seq<char>)
    requires
        !b.contains('`'),
    ensures
        markdown_text("```mermaid\n"@ + b + "```"@ + y) == "```mermaid\n"@ + mermaid_block(b) + "```"@
            + markdown_text(y),
{
    let open = "```mermaid"@;
    let close = "```"@;
    reveal_strlit("```mermaid");
    reveal_strlit("```mermaid\n");
    reveal_strlit("```");
    let s = "```mermaid\n"@ + b + close + y;
    assert(s.subrange(0, 10) =~= open);
    assert(crate::text::find(s, open) == Some(0int));
    let ao = s.skip(10);
    assert(ao[0] == '\n');
    assert(crate::text::char_from(ao, '\n', 0) == Some(0int));
    let afl = ao.skip(1);
    assert(afl =~= b + close + y);
    crate::text::lemma_find_from(afl, close, 0);
    let e = b.len() as int;
    assert(afl.subrange(e, e + 3) =~= close);
    assert(crate::text::matches_at(afl, close, e));
    match crate::text::find(afl, close) {
        Some(k) => {
            if k < e {
                assert(afl.subrange(k, k + 3)[0] == afl[k]);
                assert(afl[k] == b[k]);
                assert(b.contains(afl[k]));
            }
            assert(k == e);
        },
        None => {},
    }
    assert(afl.take(e) =~= b);
    assert(afl.skip(e + 3) =~= y);
    assert(s.take(0) =~= Seq::<char>::empty());
}

/// Fenced mermaid blocks are sanitized one after the other: a complete
/// block at the front (its body holding no backtick) becomes its sanitized
/// body, or the stub when that still fails validation, free of `"`, `#`
/// and `;`; the markdown after it is rendered as if it stood alone, so
/// every later block is sanitized too.
pub proof fn lemma_markdown_blocks(b: Seq<char>, y: Seq<char>)
    requires
        !b.contains('`'),
    ensures
        markdown_text("```mermaid\n"@ + b + "```"@ + y) == markdown_text("```mermaid\n"@ + b + "```"@)
            + markdown_text(y),
        markdown_text("```mermaid\n"@ + b + "```"@) == "```mermaid\n"@ + mermaid_block(b) + "```"@,
        no_forbidden(mermaid_block(b)),
        validate_issues(mermaid_text(b)).len() == 0 ==> validate_issues(mermaid_block(b)).len() == 0,
{
    lemma_markdown_front(b, y);
    lemma_markdown_front(b, Seq::empty());
    let x = "```mermaid\n"@ + b + "```"@;
    assert(x + Seq::<char>::empty() =~= x);
    reveal_strlit("```mermaid");
    assert(crate::text::find(Seq::<char>::empty(), "```mermaid"@) is None);
    assert(markdown_text(Seq::<char>::empty()) == Seq::<char>::empty());
    assert(x + Seq::<char>::empty() =~= x);
    assert(x + y =~= "```mermaid\n"@ + b + "```"@ + y);
    lemma_mermaid_block_clean(b);
}

} // verus!

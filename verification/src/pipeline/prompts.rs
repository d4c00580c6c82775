//! Prompt template ids and the sanitizing applied to values injected into
//! templates.

use vstd::prelude::*;

use crate::text::{chars_of, push_str, string_of};

verus! {

broadcast use vstd::string::group_string_axioms;

/// The prompt templates of the pipeline.
#[derive(Debug, Clone, Copy, PartialEq, Eq, Hash)]
pub enum PromptId {
    /// Identify abstractions in one call.
    IdentifySingleShot,
    /// Identify abstractions per batch (map).
    IdentifyMap,
    /// Merge per-batch abstractions (reduce).
    IdentifyReduce,
    /// Relationships between abstractions.
    AnalyzeRelationships,
    /// Chapter order.
    OrderChapters,
    /// Outline of one chapter.
    ChapterOutline,
    /// Body of one chapter.
    WriteChapter,
    /// Review of one chapter.
    ReviewChapter,
    /// Setup guide.
    WriteSetupGuide,
    /// Architecture overview.
    WriteArchitectureOverview,
}

/// Template file name of a prompt.
pub open spec fn prompt_file(id: PromptId) -> Seq<char> {
    match id {
        PromptId::IdentifySingleShot => "identify_single_shot.md.j2"@,
        PromptId::IdentifyMap => "identify_map.md.j2"@,
        PromptId::IdentifyReduce => "identify_reduce.md.j2"@,
        PromptId::AnalyzeRelationships => "analyze_relationships.md.j2"@,
        PromptId::OrderChapters => "order_chapters.md.j2"@,
        PromptId::ChapterOutline => "chapter_outline.md.j2"@,
        PromptId::WriteChapter => "write_chapter.md.j2"@,
        PromptId::ReviewChapter => "review_chapter.md.j2"@,
        PromptId::WriteSetupGuide => "write_setup_guide.md.j2"@,
        PromptId::WriteArchitectureOverview => "write_architecture_overview.md.j2"@,
    }
}

impl PromptId {
    /// Template file name (also the template's name in the renderer).
    pub fn as_str(self) -> (r: &'static str)
        ensures
            r@ == prompt_file(self),
    {
        match self {
            PromptId::IdentifySingleShot => "identify_single_shot.md.j2",
            PromptId::IdentifyMap => "identify_map.md.j2",
            PromptId::IdentifyReduce => "identify_reduce.md.j2",
            PromptId::AnalyzeRelationships => "analyze_relationships.md.j2",
            PromptId::OrderChapters => "order_chapters.md.j2",
            PromptId::ChapterOutline => "chapter_outline.md.j2",
            PromptId::WriteChapter => "write_chapter.md.j2",
            PromptId::ReviewChapter => "review_chapter.md.j2",
            PromptId::WriteSetupGuide => "write_setup_guide.md.j2",
            PromptId::WriteArchitectureOverview => "write_architecture_overview.md.j2",
        }
    }

    /// Every prompt id, in declaration order.
    pub fn all() -> (r: [PromptId; 10])
        ensures
            r@ == seq![
                PromptId::IdentifySingleShot,
                PromptId::IdentifyMap,
                PromptId::IdentifyReduce,
                PromptId::AnalyzeRelationships,
                PromptId::OrderChapters,
                PromptId::ChapterOutline,
                PromptId::WriteChapter,
                PromptId::ReviewChapter,
                PromptId::WriteSetupGuide,
                PromptId::WriteArchitectureOverview,
            ],
    {
        let r = [
            PromptId::IdentifySingleShot,
            PromptId::IdentifyMap,
            PromptId::IdentifyReduce,
            PromptId::AnalyzeRelationships,
            PromptId::OrderChapters,
            PromptId::ChapterOutline,
            PromptId::WriteChapter,
            PromptId::ReviewChapter,
            PromptId::WriteSetupGuide,
            PromptId::WriteArchitectureOverview,
        ];
        assert(r@ =~= seq![
            PromptId::IdentifySingleShot,
            PromptId::IdentifyMap,
            PromptId::IdentifyReduce,
            PromptId::AnalyzeRelationships,
            PromptId::OrderChapters,
            PromptId::ChapterOutline,
            PromptId::WriteChapter,
            PromptId::ReviewChapter,
            PromptId::WriteSetupGuide,
            PromptId::WriteArchitectureOverview,
        ]);
        r
    }
}

/// Errors of prompt rendering.
#[derive(Debug)]
pub enum PromptError {
    /// The template failed to render.
    Render(String),
    /// No template is registered under this name.
    NotFound(String),
}

impl PromptError {
    /// The error message.
    pub fn to_string(&self) -> (r: String)
        ensures
            r@ == match *self {
                PromptError::Render(m) => "template render error: "@ + m@,
                PromptError::NotFound(n) => "template not found: "@ + n@,
            },
    {
        let mut out: Vec<char> = Vec::new();
        match self {
            PromptError::Render(m) => {
                push_str(&mut out, "template render error: ");
                push_str(&mut out, m.as_str());
            },
            PromptError::NotFound(n) => {
                push_str(&mut out, "template not found: ");
                push_str(&mut out, n.as_str());
            },
        }
        string_of(&out)
    }
}

/// Position of a prompt among `PromptId::all()`.
pub open spec fn prompt_index(id: PromptId) -> nat {
    match id {
        PromptId::IdentifySingleShot => 0,
        PromptId::IdentifyMap => 1,
        PromptId::IdentifyReduce => 2,
        PromptId::AnalyzeRelationships => 3,
        PromptId::OrderChapters => 4,
        PromptId::ChapterOutline => 5,
        PromptId::WriteChapter => 6,
        PromptId::ReviewChapter => 7,
        PromptId::WriteSetupGuide => 8,
        PromptId::WriteArchitectureOverview => 9,
    }
}

fn prompt_position(id: PromptId) -> (r: usize)
    ensures
        r == prompt_index(id),
{
    match id {
        PromptId::IdentifySingleShot => 0,
        PromptId::IdentifyMap => 1,
        PromptId::IdentifyReduce => 2,
        PromptId::AnalyzeRelationships => 3,
        PromptId::OrderChapters => 4,
        PromptId::ChapterOutline => 5,
        PromptId::WriteChapter => 6,
        PromptId::ReviewChapter => 7,
        PromptId::WriteSetupGuide => 8,
        PromptId::WriteArchitectureOverview => 9,
    }
}

/// Template variables as (name, value) character sequences.
pub open spec fn var_views(vars: Seq<(String, String)>) -> Seq<(Seq<char>, Seq<char>)> {
    vars.map_values(|p: (String, String)| (p.0@, p.1@))
}

/// What minijinja renders for a template source and string variables
/// (undefined variables are errors): `None` when rendering fails.
pub uninterp spec fn rendered(template: Seq<char>, vars: Seq<(Seq<char>, Seq<char>)>) -> Option<Seq<char>>;

/// Trusted: `minijinja::Environment::render_str` with strict undefined
/// handling and a context mapping each name to its string value depends on
/// its arguments alone: it succeeds exactly when `rendered` is `Some`, with
/// that text; its error is returned as its message, of which nothing is
/// claimed.
#[verifier::external_body]
fn render_template(template: &str, vars: &[(String, String)]) -> (r: Result<String, String>)
    ensures
        r is Ok <==> rendered(template@, var_views(vars@)) is Some,
        r matches Ok(s) ==> rendered(template@, var_views(vars@)) == Some(s@),
{
    let mut env = minijinja::Environment::new();
    env.set_undefined_behavior(minijinja::UndefinedBehavior::Strict);
    let ctx: minijinja::Value = vars.iter().map(|(k, v)| (k.as_str(), v.as_str())).collect();
    env.render_str(template, ctx).map_err(|e| e.to_string())
}

/// The prompt templates, one source text per `PromptId` in the order of
/// `PromptId::all()`.
pub struct PromptRenderer {
    templates: Vec<String>,
}

impl PromptRenderer {
    /// The template sources held, by prompt position.
    pub closed spec fn spec_templates(&self) -> Seq<Seq<char>> {
        crate::scope::string_views(self.templates@)
    }

    /// A renderer over template sources given in the order of
    /// `PromptId::all()` (missing trailing ones render as not found).
    pub fn new(templates: Vec<String>) -> (r: PromptRenderer)
        ensures
            r.spec_templates() == crate::scope::string_views(templates@),
    {
        PromptRenderer { templates }
    }

    /// Render prompt `id` with string variables: `NotFound` with the
    /// template's file name when no source is held for it, else the
    /// rendered text or a `Render` error.
    pub fn render(&self, id: PromptId, vars: &[(String, String)]) -> (r: Result<String, PromptError>)
        ensures
            prompt_index(id) >= self.spec_templates().len() ==> (r matches Err(PromptError::NotFound(n))
                && n@ == prompt_file(id)),
            prompt_index(id) < self.spec_templates().len() ==> match rendered(
                self.spec_templates()[prompt_index(id) as int],
                var_views(vars@),
            ) {
                Some(t) => r matches Ok(s) && s@ == t,
                None => r matches Err(PromptError::Render(_)),
            },
    {
        let i = prompt_position(id);
        if i >= self.templates.len() {
            return Err(PromptError::NotFound(id.as_str().to_owned()));
        }
        assert(self.spec_templates()[i as int] == self.templates@[i as int]@);
        match render_template(self.templates[i].as_str(), vars) {
            Ok(s) => Ok(s),
            Err(m) => Err(PromptError::Render(m)),
        }
    }
}

/// `ab` opens or closes a template tag: `{{`, `}}`, `{%` or `%}`.
pub open spec fn is_delimiter(a: char, b: char) -> bool {
    ||| a == '{' && b == '{'
    ||| a == '}' && b == '}'
    ||| a == '{' && b == '%'
    ||| a == '%' && b == '}'
}

/// Some two adjacent characters of `s` form a template delimiter.
pub open spec fn has_delimiter(s: Seq<char>) -> bool {
    exists|i: int| 0 <= i < s.len() - 1 && is_delimiter(#[trigger] s[i], s[i + 1])
}

/// Template delimiters broken apart: scanning left to right, a space is put
/// between any two adjacent characters that form `{{`, `}}`, `{%` or `%}`
/// (so `{{ x }}` becomes `{ { x } }` and `{{{` becomes `{ { {`).
pub open spec fn sanitized_input(t: Seq<char>) -> Seq<char>
    decreases t.len(),
{
    if t.len() == 0 {
        t
    } else {
        sanitized_input(t.drop_last()) + if t.len() >= 2 && is_delimiter(t[t.len() - 2], t.last()) {
            seq![' ', t.last()]
        } else {
            seq![t.last()]
        }
    }
}

/// The sanitized text keeps the input's last character last.
proof fn lemma_sanitized_last(t: Seq<char>)
    ensures
        sanitized_input(t).len() >= t.len(),
        t.len() > 0 ==> sanitized_input(t).last() == t.last(),
    decreases t.len(),
{
    if t.len() > 0 {
        lemma_sanitized_last(t.drop_last());
    }
}

fn delimiter_pair(a: char, b: char) -> (r: bool)
    ensures
        r == is_delimiter(a, b),
{
    (a == '{' && b == '{') || (a == '}' && b == '}') || (a == '{' && b == '%') || (a == '%' && b
        == '}')
}

/// Break template delimiters in user-controlled text so it cannot be read
/// as template syntax: no `{{`, `}}`, `{%` or `%}` is left, and text
/// without them is returned unchanged.
pub fn sanitize_template_input(text: &str) -> (r: String)
    ensures
        r@ == sanitized_input(text@),
        !has_delimiter(r@),
        !has_delimiter(text@) ==> r@ == text@,
{
    let v = chars_of(text);
    let mut out: Vec<char> = Vec::new();
    let mut i: usize = 0;
    while i < v.len()
        invariant
            i <= v@.len(),
            v@ == text@,
            out@ == sanitized_input(v@.take(i as int)),
        decreases v.len() - i,
    {
        let ghost t = v@.take(i + 1);
        assert(t.drop_last() =~= v@.take(i as int));
        if i > 0 && delimiter_pair(v[i - 1], v[i]) {
            out.push(' ');
        }
        out.push(v[i]);
        assert(out@ =~= sanitized_input(t));
        i = i + 1;
    }
    assert(v@.take(v@.len() as int) =~= v@);
    proof {
        lemma_sanitized_no_delimiter(text@);
    }
    string_of(&out)
}

/// Sanitized text holds no template delimiter, and text without one is
/// left as it is.
pub proof fn lemma_sanitized_no_delimiter(t: Seq<char>)
    ensures
        !has_delimiter(sanitized_input(t)),
        !has_delimiter(t) ==> sanitized_input(t) == t,
    decreases t.len(),
{
    if t.len() > 0 {
        let d = t.drop_last();
        lemma_sanitized_no_delimiter(d);
        lemma_sanitized_last(d);
        let o = sanitized_input(d);
        let c = t.last();
        let r = sanitized_input(t);
        let tail: Seq<char> = if t.len() >= 2 && is_delimiter(t[t.len() - 2], c) {
            seq![' ', c]
        } else {
            seq![c]
        };
        assert(r == o + tail);
        assert forall|i: int| 0 <= i < r.len() - 1 implies !is_delimiter(#[trigger] r[i], r[i + 1]) by {
            if i + 1 < o.len() {
                assert(r[i] == o[i] && r[i + 1] == o[i + 1]);
            } else if i + 1 == o.len() {
                assert(r[i] == o.last());
                assert(o.last() == d.last());
                assert(d.last() == t[t.len() - 2]);
            }
        }
        if !has_delimiter(t) {
            assert forall|i: int| 0 <= i < d.len() - 1 implies !is_delimiter(#[trigger] d[i], d[i + 1]) by {
                assert(d[i] == t[i] && d[i + 1] == t[i + 1]);
            }
            if t.len() >= 2 {
                assert(!is_delimiter(t[t.len() - 2], t[t.len() - 1]));
            }
            assert(r =~= t);
        }
    } else {
        assert forall|i: int| 0 <= i < t.len() - 1 implies !is_delimiter(#[trigger] t[i], t[i + 1]) by {}
    }
}

/// Sanitized text holds none of the strings `{{`, `}}`, `{%`, `%}`.
pub proof fn lemma_sanitized_input_delimiters(t: Seq<char>)
    ensures
        !crate::text::contains(sanitized_input(t), "{{"@),
        !crate::text::contains(sanitized_input(t), "}}"@),
        !crate::text::contains(sanitized_input(t), "{%"@),
        !crate::text::contains(sanitized_input(t), "%}"@),
{
    lemma_sanitized_no_delimiter(t);
    let r = sanitized_input(t);
    reveal_strlit("{{");
    reveal_strlit("}}");
    reveal_strlit("{%");
    reveal_strlit("%}");
    assert forall|p: Seq<char>, k: int|
        p.len() == 2 && is_delimiter(p[0], p[1]) && crate::text::matches_at(r, p, k) implies false by {
        assert(r.subrange(k, k + 2)[0] == r[k]);
        assert(r.subrange(k, k + 2)[1] == r[k + 1]);
        assert(is_delimiter(r[k], r[k + 1]));
    }
    assert(is_delimiter("{{"@[0], "{{"@[1]));
    assert(is_delimiter("}}"@[0], "}}"@[1]));
    assert(is_delimiter("{%"@[0], "{%"@[1]));
    assert(is_delimiter("%}"@[0], "%}"@[1]));
}

} // verus!

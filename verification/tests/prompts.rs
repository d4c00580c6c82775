use decon::pipeline::prompts::{sanitize_template_input, PromptId};

#[test]
fn sanitize_handles_statement_delimiters() {
    let raw = "{% if x %}bad{% endif %}";
    let safe = sanitize_template_input(raw);
    assert!(!safe.contains("{%"));
    assert!(!safe.contains("%}"));
}

#[test]
fn sanitize_preserves_single_braces() {
    let raw = "function foo() { return 1; }";
    assert_eq!(sanitize_template_input(raw), raw);
}


#[test]
fn prompt_id_as_str_returns_expected_filenames() {
    assert_eq!(
        PromptId::IdentifySingleShot.as_str(),
        "identify_single_shot.md.j2"
    );
    assert_eq!(PromptId::IdentifyMap.as_str(), "identify_map.md.j2");
    assert_eq!(PromptId::IdentifyReduce.as_str(), "identify_reduce.md.j2");
    assert_eq!(
        PromptId::AnalyzeRelationships.as_str(),
        "analyze_relationships.md.j2"
    );
    assert_eq!(PromptId::OrderChapters.as_str(), "order_chapters.md.j2");
    assert_eq!(PromptId::ChapterOutline.as_str(), "chapter_outline.md.j2");
    assert_eq!(PromptId::WriteChapter.as_str(), "write_chapter.md.j2");
    assert_eq!(PromptId::ReviewChapter.as_str(), "review_chapter.md.j2");
    assert_eq!(
        PromptId::WriteSetupGuide.as_str(),
        "write_setup_guide.md.j2"
    );
    assert_eq!(
        PromptId::WriteArchitectureOverview.as_str(),
        "write_architecture_overview.md.j2"
    );
}

#[test]
fn sanitize_template_input_breaks_jinja_syntax() {
    let raw = "Hello {{ evil }} world {{ another }}";
    let sanitized = sanitize_template_input(raw);
    // The sanitized text must not contain the `{{` sequence that minijinja
    // would interpret as an expression start.
    assert!(
        !sanitized.contains("{{"),
        "sanitized text still contains `{{`: {sanitized:?}"
    );
    assert!(
        !sanitized.contains("}}"),
        "sanitized text still contains `}}`: {sanitized:?}"
    );
}

#[test]
fn sanitize_template_input_does_not_alter_plain_text() {
    let raw = "Just a normal sentence with curly braces: none here.";
    let sanitized = sanitize_template_input(raw);
    assert_eq!(sanitized, raw, "plain text was altered");
}

use decon::eval::{evaluate_tutorial, TutorialFile, DEFAULT_EVAL_PASS_THRESHOLD};

fn file(path: &str, content: &str) -> TutorialFile {
    TutorialFile {
        path: path.into(),
        content: content.into(),
    }
}

#[test]
fn empty_tree_fails() {
    let report = evaluate_tutorial(&[], DEFAULT_EVAL_PASS_THRESHOLD);
    assert!(!report.passed);
    assert!(!report.checks.has_index);
}

#[test]
fn link_resolution_relative() {
    let files = vec![
        file(
            "index.md",
            "# I\n\n```mermaid\nflowchart LR\n  A0[x]\n```\n\n[C](ch/a.md)\n",
        ),
        file("ch/a.md", "# Setup\n\n`src/main.rs`\n\n## Evidence\n\nok\n"),
    ];
    let report = evaluate_tutorial(&files, DEFAULT_EVAL_PASS_THRESHOLD);
    assert_eq!(report.checks.links_total, 1);
    assert_eq!(report.checks.links_resolved, 1);
}

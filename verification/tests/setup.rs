use decon::setup::{assess_setup, file_name, MIN_README_LEN};

#[test]
fn env_docs_from_nested_env_example_basename() {
    // Important: nested `.env.example` must count like config_files do.
    let readme = "x".repeat(MIN_README_LEN)
        + "\n## Prerequisites\nRequires Go.\n## Install\ngo install\n## Run\ngo run .\n";
    // No env keywords in README; only nested file.
    let a = assess_setup(&readme, &["docs/.env.example", "main.go"]);
    assert!(a.signals.has_env_docs);
    assert_eq!(a.score, 100);
    assert!(a.config_files.iter().any(|f| f == "docs/.env.example"));
}

#[test]
fn empty_readme_and_no_signals_scores_zero_with_gaps() {
    let a = assess_setup("", &["src/main.rs"]);
    assert_eq!(a.score, 0);
    assert!(!a.signals.has_readme);
    assert!(!a.signals.has_install_commands);
    assert!(!a.signals.has_env_docs);
    assert!(!a.signals.has_run_instructions);
    assert!(!a.signals.has_prerequisites);
    assert!(a.needs_setup_guide);
    assert_eq!(a.gaps.len(), 5);
    assert!(a.config_files.is_empty());
}

#[test]
fn short_readme_applies_penalty_and_gap() {
    // Has install + run + require keywords, no env file / wording.
    let readme = "Install me. Run me. Requires Python.\n";
    assert!(readme.len() < MIN_README_LEN);
    let a = assess_setup(readme, &["src/a.py"]);
    assert!(a.signals.has_readme);
    assert!(a.signals.has_install_commands);
    assert!(a.signals.has_run_instructions);
    assert!(a.signals.has_prerequisites);
    assert!(!a.signals.has_env_docs);
    // 20*4 - 2 short penalty = 78 for four signals; no env → only 3 signals + readme = 4*20 - 2 = 78
    assert_eq!(a.score, 78);
    assert!(a.gaps.iter().any(|g| g.contains("too short")));
    assert!(a.gaps.iter().any(|g| g.contains("environment")));
    assert!(a.needs_setup_guide); // score < 80 and gaps >= 2
}

#[test]
fn env_docs_from_env_example_file_without_readme_mention() {
    let readme = "x".repeat(MIN_README_LEN)
        + "\n## Prerequisites\nRequires Go.\n## Install\ngo install\n## Run\ngo run .\n";
    let a = assess_setup(&readme, &[".env.example", "main.go"]);
    assert!(a.signals.has_env_docs);
    assert_eq!(a.score, 100);
    assert!(!a.needs_setup_guide);
}

#[test]
fn config_files_matched_by_basename_anywhere() {
    let a = assess_setup(
        "",
        &[
            "apps/alpha/mix.exs",
            "docker-compose.yml",
            "src/lib.rs",
            "Makefile",
        ],
    );
    assert_eq!(
        a.config_files,
        vec![
            "Makefile".to_owned(),
            "apps/alpha/mix.exs".to_owned(),
            "docker-compose.yml".to_owned(),
        ]
    );
}

#[test]
fn file_name_helper_handles_nested_and_root() {
    assert_eq!(file_name("apps/alpha/mix.exs"), "mix.exs");
    assert_eq!(file_name("README.md"), "README.md");
    assert_eq!(file_name(".env.example"), ".env.example");
    assert_eq!(file_name(r"apps\alpha\mix.exs"), "mix.exs");
}


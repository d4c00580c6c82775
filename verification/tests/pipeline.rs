use decon::abstraction::{Abstraction, Tier};
use decon::budget::BudgetConfig;
use decon::crawl::CrawlError;
use decon::module::ModuleKey;
use decon::progress::ProgressTracker;
use decon::pipeline::checkpoint::{CheckpointStore, CheckpointStoreError};
use decon::pipeline::dry_run::{estimate_budget_for_files, plan_dry_run, DryRunError};
use decon::pipeline::identify::{
    check_abstractions, format_file_listing, identify_prompt_fields, reserve_identify_call, IdentifyError,
    IdentifySingleShotInput,
};

// ---- checkpoint directory rules ----------------------------------------

fn integrity_message(r: Result<(), CheckpointStoreError>) -> String {
    match r {
        Err(CheckpointStoreError::ManifestIntegrity(m)) => m,
        other => panic!("expected ManifestIntegrity, got {other:?}"),
    }
}

#[test]
fn manifest_name_accepts_plain_file_names() {
    assert!(CheckpointStore::validate_manifest_rel("checkpoint.json").is_ok());
    assert!(CheckpointStore::validate_manifest_rel("a.b.c").is_ok());
}

#[test]
fn manifest_name_rejects_paths_and_dots() {
    for bad in ["", "a/b", "a\\b", ".", "..", "x..y", "../etc"] {
        let m = integrity_message(CheckpointStore::validate_manifest_rel(bad));
        assert_eq!(
            m,
            format!("unsafe manifest path: {bad:?} (must be a single relative filename)")
        );
    }
}

#[test]
fn manifest_check_reports_sha_then_size() {
    assert!(CheckpointStore::check_manifest("abc", "abc", 10, 10).is_ok());
    assert_eq!(
        integrity_message(CheckpointStore::check_manifest("abc", "abd", 10, 11)),
        "sha256 mismatch: expected abc, got abd"
    );
    assert_eq!(
        integrity_message(CheckpointStore::check_manifest("abc", "abc", 10, 11)),
        "size mismatch: expected 10, got 11"
    );
}

#[test]
fn checkpoint_store_error_messages() {
    assert_eq!(CheckpointStore::new("/ck").dir, "/ck");
    assert_eq!(
        CheckpointStoreError::NotFound("/ck/x".to_string()).to_string(),
        "checkpoint not found: /ck/x"
    );
    assert_eq!(
        CheckpointStoreError::Io {
            path: "/ck".to_string(),
            message: "denied".to_string(),
        }
        .to_string(),
        "checkpoint I/O at /ck: denied"
    );
}

// ---- identify stage ------------------------------------------------------

fn files() -> Vec<String> {
    vec![
        "src/main.rs".to_string(),
        "src/lib.rs".to_string(),
        "src/utils.rs".to_string(),
        "src/config.rs".to_string(),
    ]
}

fn abstraction(name: &str, indices: Vec<usize>) -> Abstraction {
    let mut a = Abstraction::new(name, "d", Tier::S, "module");
    a.file_indices = indices;
    a
}

#[test]
fn file_listing_is_numbered_lines() {
    assert_eq!(
        format_file_listing(&files()),
        "0 # src/main.rs\n1 # src/lib.rs\n2 # src/utils.rs\n3 # src/config.rs"
    );
    assert_eq!(format_file_listing(&[]), "");
}

#[test]
fn prompt_fields_are_sanitized() {
    let input = IdentifySingleShotInput {
        files: files(),
        project_name: "my-{{project}}".to_string(),
        language_instruction: "{% raw %}".to_string(),
        lang_note: "plain".to_string(),
        max_abstraction_num: 5,
    };
    let f = identify_prompt_fields(&input);
    assert_eq!(f.project_name, "my-{ {project} }");
    assert_eq!(f.language_instruction, "{ % raw % }");
    assert_eq!(f.lang_hint, "plain");
    assert_eq!(f.max_abstraction_num, 5);
    assert!(f.file_listing.starts_with("0 # src/main.rs\n"));
}

#[test]
fn check_abstractions_accepts_in_range_indices() {
    let r = check_abstractions(
        vec![abstraction("Core", vec![0, 1, 2]), abstraction("Utils", vec![3])],
        4,
    )
    .unwrap();
    assert_eq!(r.abstractions.len(), 2);
    assert_eq!(r.abstractions[0].name, "Core");
    assert_eq!(r.abstractions[1].file_indices, vec![3]);
}

#[test]
fn check_abstractions_reports_first_out_of_range_index() {
    let err = check_abstractions(
        vec![abstraction("A", vec![0, 9, 7]), abstraction("B", vec![8])],
        4,
    )
    .unwrap_err();
    match err {
        IdentifyError::FileIndexOutOfRange { index, total } => {
            assert_eq!(index, 9);
            assert_eq!(total, 4);
        }
        other => panic!("got {other:?}"),
    }
    assert_eq!(
        IdentifyError::FileIndexOutOfRange { index: 9, total: 4 }.to_string(),
        "abstraction file index 9 out of range (have 4 files)"
    );
}

#[test]
fn check_abstractions_empty_is_an_error() {
    let err = check_abstractions(vec![], 4).unwrap_err();
    assert!(matches!(err, IdentifyError::NoAbstractions));
}

// ---- dry-run planning ----------------------------------------------------

#[test]
fn plan_with_custom_budget_truncates() {
    let cfg = BudgetConfig {
        max_file_chars: 10,
        batch_char_budget: 50,
        chars_per_token: 4,
        max_full_files_per_module: 40,
    };
    let plan = plan_dry_run("/repo", &["big.txt"], &[100], "", None, &cfg).unwrap();
    assert_eq!(plan.root, "/repo");
    assert_eq!(plan.budget.file_count, 1);
    assert_eq!(plan.budget.raw_chars, 100);
    assert!(plan.budget.truncated_file_count >= 1);
    assert!(plan.budget.budgeted_chars < plan.budget.raw_chars);
    let default_plan =
        plan_dry_run("/repo", &["big.txt"], &[100], "", None, &BudgetConfig::default()).unwrap();
    assert_eq!(default_plan.budget.truncated_file_count, 0);
    assert_eq!(default_plan.budget.budgeted_chars, 100);
    assert_eq!(default_plan.budget.token_estimate, 25);
}

#[test]
fn plan_without_readme_needs_setup_guide() {
    let plan = plan_dry_run(
        "/repo",
        &["src/lib.rs", "apps/alpha/main.rs"],
        &[10, 20],
        "",
        None,
        &BudgetConfig::default(),
    )
    .unwrap();
    assert!(plan.setup.needs_setup_guide);
    assert!(!plan.setup.signals.has_readme);
    assert_eq!(plan.files, vec!["src/lib.rs".to_string(), "apps/alpha/main.rs".to_string()]);
    assert!(!plan.filter_stats.filtered);
    assert_eq!(plan.modules.len(), 2);
    assert_eq!(plan.budget.raw_chars, 30);
}

#[test]
fn plan_scoped_keeps_module_and_shared_files() {
    let scope = vec![ModuleKey::new("apps/alpha")];
    let plan = plan_dry_run(
        "/repo",
        &["README.md", "apps/alpha/main.rs", "apps/beta/main.rs"],
        &[5, 20, 30],
        "# Demo",
        Some(&scope),
        &BudgetConfig::default(),
    )
    .unwrap();
    assert!(plan.filter_stats.filtered);
    assert_eq!(plan.filter_stats.before, 3);
    assert_eq!(plan.filter_stats.after, 2);
    assert_eq!(
        plan.files,
        vec!["README.md".to_string(), "apps/alpha/main.rs".to_string()]
    );
    assert_eq!(plan.budget.raw_chars, 25);
}

#[test]
fn estimate_for_files_sums_sizes() {
    let f = vec!["a/x.rs".to_string(), "b/y.rs".to_string()];
    let b = estimate_budget_for_files(&f, &[4, 8], &BudgetConfig::default()).unwrap();
    assert_eq!(b.file_count, 2);
    assert_eq!(b.module_count, 2);
    assert_eq!(b.raw_chars, 12);
    assert_eq!(b.budgeted_chars, 12);
    assert_eq!(b.token_estimate, 3);
    assert_eq!(b.batch_count, 1);
}

#[test]
fn dry_run_error_messages() {
    assert_eq!(
        DryRunError::Crawl(CrawlError::NotADirectory("/x".to_string())).to_string(),
        "path is not a directory: /x"
    );
    assert_eq!(
        DryRunError::Io {
            path: "/x/README.md".to_string(),
            message: "denied".to_string(),
        }
        .to_string(),
        "failed to read /x/README.md: denied"
    );
    assert_eq!(
        DryRunError::FileSizeOverflow {
            path: "big".to_string(),
            size: 7,
        }
        .to_string(),
        "file size overflow for big: 7 bytes exceeds usize::MAX"
    );
}

#[test]
fn identify_call_reservation() {
    let mut p = ProgressTracker::new(1);
    assert!(reserve_identify_call(&mut p).is_ok());
    let s = p.snapshot();
    assert_eq!(s.llm_calls_used, 1);
    assert_eq!(s.current_stage.as_deref(), Some("identify"));
    match reserve_identify_call(&mut p) {
        Err(IdentifyError::Budget(m)) => assert_eq!(m, "LLM call budget exceeded: used 1 of max 1"),
        other => panic!("got {other:?}"),
    }
    assert_eq!(p.snapshot().llm_calls_used, 1);
}

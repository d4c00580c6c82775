use decon::budget::{
    capped_file_chars, estimate_budget, path_stub, path_stub_chars, truncate_content, BudgetConfig,
    FileSize, DEFAULT_BATCH_CHAR_BUDGET, DEFAULT_CHARS_PER_TOKEN, DEFAULT_MAX_FILE_CHARS,
    DEFAULT_MAX_FULL_FILES_PER_MODULE, PATH_STUB_PREFIX, TRUNCATION_MARKER,
};
use decon::module::ModuleKey;

fn file(path: &str, chars: usize, module: &str) -> FileSize {
    FileSize {
        path: path.to_owned(),
        chars,
        module: ModuleKey::new(module),
    }
}

#[test]
fn truncate_leaves_short_content_unchanged() {
    let r = truncate_content("hello world", 100);
    assert!(!r.truncated);
    assert_eq!(r.text, "hello world");
    assert_eq!(r.original_chars, 11);
}

#[test]
fn truncate_long_content_inserts_marker() {
    let content = "H".repeat(50) + &"T".repeat(50);
    let r = truncate_content(&content, 30);
    assert!(r.truncated);
    assert!(r.text.contains(TRUNCATION_MARKER));
    assert!(r.text.starts_with('H'));
    assert!(r.text.ends_with('T'));
    assert_eq!(r.original_chars, 100);
}

#[test]
fn path_stub_format() {
    assert_eq!(path_stub("src/lib.rs"), "// path-only: src/lib.rs");
    assert_eq!(path_stub_chars("a"), PATH_STUB_PREFIX.len() + 1);
}

#[test]
fn estimate_empty_input() {
    let est = estimate_budget(&[], &BudgetConfig::default());
    assert_eq!(est.file_count, 0);
    assert_eq!(est.batch_count, 0);
    assert_eq!(est.token_estimate, 0);
    assert!(!est.oversized_batch);
}

#[test]
fn estimate_single_huge_file_truncates_and_may_oversized() {
    let cfg = BudgetConfig {
        max_file_chars: 100,
        batch_char_budget: 50,
        chars_per_token: 4,
        max_full_files_per_module: 10,
    };
    let files = [file("big.rs", 10_000, "src")];
    let est = estimate_budget(&files, &cfg);
    assert_eq!(est.file_count, 1);
    assert_eq!(est.truncated_file_count, 1);
    assert_eq!(est.budgeted_chars, 100); // capped
    assert_eq!(est.raw_chars, 10_000);
    assert_eq!(est.token_estimate, 25); // 100/4
    assert_eq!(est.batch_count, 1);
    assert!(est.oversized_batch); // 100 > 50
    assert_eq!(est.stubbed_file_count, 0);
}

#[test]
fn estimate_multi_module_packing_splits_batches() {
    let cfg = BudgetConfig {
        max_file_chars: 1_000,
        batch_char_budget: 150,
        chars_per_token: 4,
        max_full_files_per_module: 10,
    };
    // Each module costs 100; two fit in 150? 100+100=200 > 150 → 2 batches.
    let files = [
        file("apps/alpha/a.ex", 100, "apps/alpha"),
        file("apps/beta/b.ex", 100, "apps/beta"),
        file("README.md", 100, "_root"),
    ];
    let est = estimate_budget(&files, &cfg);
    assert_eq!(est.module_count, 3);
    assert_eq!(est.file_count, 3);
    assert_eq!(est.budgeted_chars, 300);
    // Order: apps/alpha, apps/beta, _root — each 100.
    // Batch1: alpha(100)+beta fails → only alpha; Batch2: beta(100)+root fails → beta; Batch3: root.
    // Actually: start batch1 with alpha 100. beta 100 → 200 > 150 → new batch with beta 100.
    // root 100 → 200 > 150 → new batch with root. → 3 batches.
    assert_eq!(est.batch_count, 3);
    assert!(!est.oversized_batch);
}

#[test]
fn estimate_stubs_overflow_files_in_module() {
    let cfg = BudgetConfig {
        max_file_chars: 1_000,
        batch_char_budget: 100_000,
        chars_per_token: 4,
        max_full_files_per_module: 2,
    };
    let files = [
        file("src/a.rs", 10, "src"),
        file("src/b.rs", 10, "src"),
        file("src/c.rs", 10, "src"),
        file("src/d.rs", 10, "src"),
    ];
    let est = estimate_budget(&files, &cfg);
    assert_eq!(est.stubbed_file_count, 2);
    // Two full at 10 + two stubs
    let stub = path_stub_chars("src/c.rs"); // same length pattern for c and d
    assert_eq!(
        est.budgeted_chars,
        10 + 10 + path_stub_chars("src/c.rs") + path_stub_chars("src/d.rs")
    );
    assert_eq!(est.batch_count, 1);
    let _ = stub;
}

#[test]
fn estimate_token_uses_div_ceil() {
    let cfg = BudgetConfig {
        max_file_chars: 100,
        batch_char_budget: 10_000,
        chars_per_token: 4,
        max_full_files_per_module: 10,
    };
    let files = [file("a.rs", 5, "_root")];
    let est = estimate_budget(&files, &cfg);
    assert_eq!(est.budgeted_chars, 5);
    assert_eq!(est.token_estimate, 2); // ceil(5/4)
}

#[test]
fn default_config_matches_public_constants() {
    let d = BudgetConfig::default();
    assert_eq!(d.max_file_chars, DEFAULT_MAX_FILE_CHARS);
    assert_eq!(d.batch_char_budget, DEFAULT_BATCH_CHAR_BUDGET);
    assert_eq!(d.chars_per_token, DEFAULT_CHARS_PER_TOKEN);
    assert_eq!(
        d.max_full_files_per_module,
        DEFAULT_MAX_FULL_FILES_PER_MODULE
    );
}


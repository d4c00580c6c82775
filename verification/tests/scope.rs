use decon::module::{discover_modules, ModuleCount, ModuleKey};
use decon::scope::{filter_files_by_scope, is_shared_module, unscoped_filter_stats};

const UMBRELLA_FILES: &[&str] = &[
    ".env.example",
    "README.md",
    "apps/alpha/lib/alpha.ex",
    "apps/alpha/mix.exs",
    "apps/beta/lib/beta.ex",
    "apps/beta/mix.exs",
    "apps/gamma/lib/gamma.ex",
    "apps/gamma/mix.exs",
    "config/config.exs",
    "mix.exs",
];

const PYTHON_LIB_FILES: &[&str] = &[
    ".env.example",
    "README.md",
    "pyproject.toml",
    "src/mylib/__init__.py",
    "src/mylib/cli.py",
    "src/mylib/core.py",
];

const JS_LIB_FILES: &[&str] = &[
    ".env.example",
    "README.md",
    "package.json",
    "src/index.ts",
    "src/utils.ts",
    "tsconfig.json",
];

#[test]
fn is_shared_module_root_and_config_only() {
    assert!(is_shared_module(&ModuleKey::new("_root")));
    assert!(is_shared_module(&ModuleKey::new("config")));
    assert!(!is_shared_module(&ModuleKey::new("apps/alpha")));
    assert!(!is_shared_module(&ModuleKey::new("src")));
    assert!(!is_shared_module(&ModuleKey::new("apps")));
}

#[test]
fn unscoped_python_lib_matches_baseline() {
    let modules = discover_modules(&PYTHON_LIB_FILES);
    let stats = unscoped_filter_stats(PYTHON_LIB_FILES.len(), &modules);
    assert!(!stats.filtered);
    assert_eq!(stats.before, 6);
    assert_eq!(stats.after, 6);
    assert_eq!(stats.kept_shared, 0);
    assert_eq!(
        stats
            .module_keys
            .iter()
            .map(ModuleKey::as_str)
            .collect::<Vec<_>>(),
        vec!["_root", "src"]
    );
}

#[test]
fn unscoped_umbrella_matches_baseline() {
    let modules = discover_modules(&UMBRELLA_FILES);
    let stats = unscoped_filter_stats(UMBRELLA_FILES.len(), &modules);
    assert!(!stats.filtered);
    assert_eq!(stats.before, 10);
    assert_eq!(stats.after, 10);
    assert_eq!(stats.kept_shared, 0);
    assert_eq!(
        stats
            .module_keys
            .iter()
            .map(ModuleKey::as_str)
            .collect::<Vec<_>>(),
        vec!["apps/alpha", "apps/beta", "apps/gamma", "_root", "config"]
    );
}

#[test]
fn unscoped_js_lib_matches_baseline() {
    let modules = discover_modules(&JS_LIB_FILES);
    let stats = unscoped_filter_stats(JS_LIB_FILES.len(), &modules);
    assert!(!stats.filtered);
    assert_eq!(stats.before, 6);
    assert_eq!(stats.after, 6);
    assert_eq!(stats.kept_shared, 0);
    assert_eq!(
        stats
            .module_keys
            .iter()
            .map(ModuleKey::as_str)
            .collect::<Vec<_>>(),
        vec!["_root", "src"]
    );
}

#[test]
fn scoped_umbrella_alpha_only_matches_baseline() {
    let scope = [ModuleKey::new("apps/alpha")];
    let result = filter_files_by_scope(UMBRELLA_FILES, &scope);
    assert!(result.stats.filtered);
    assert_eq!(result.stats.before, 10);
    assert_eq!(result.stats.after, 6);
    assert_eq!(result.stats.kept_shared, 4);
    assert_eq!(
        result
            .stats
            .module_keys
            .iter()
            .map(ModuleKey::as_str)
            .collect::<Vec<_>>(),
        vec!["apps/alpha"]
    );
    // Shared: .env.example, README.md, mix.exs, config/config.exs
    // In scope: apps/alpha/lib/alpha.ex, apps/alpha/mix.exs
    assert_eq!(
        result.files,
        vec![
            ".env.example",
            "README.md",
            "apps/alpha/lib/alpha.ex",
            "apps/alpha/mix.exs",
            "config/config.exs",
            "mix.exs",
        ]
    );
}

#[test]
fn scoped_umbrella_alpha_beta_matches_baseline() {
    let scope = [ModuleKey::new("apps/alpha"), ModuleKey::new("apps/beta")];
    let result = filter_files_by_scope(UMBRELLA_FILES, &scope);
    assert!(result.stats.filtered);
    assert_eq!(result.stats.before, 10);
    assert_eq!(result.stats.after, 8);
    assert_eq!(result.stats.kept_shared, 4);
    assert_eq!(
        result
            .stats
            .module_keys
            .iter()
            .map(ModuleKey::as_str)
            .collect::<Vec<_>>(),
        vec!["apps/alpha", "apps/beta"]
    );
    assert!(!result.files.iter().any(|f| f.starts_with("apps/gamma")));
}

#[test]
fn scoped_module_keys_sort_apps_before_root() {
    // Scope listed out of order; stats.module_keys must use baseline order.
    let scope = [
        ModuleKey::new("_root"),
        ModuleKey::new("apps/beta"),
        ModuleKey::new("apps/alpha"),
    ];
    let result = filter_files_by_scope(UMBRELLA_FILES, &scope);
    assert_eq!(
        result
            .stats
            .module_keys
            .iter()
            .map(ModuleKey::as_str)
            .collect::<Vec<_>>(),
        vec!["apps/alpha", "apps/beta", "_root"]
    );
    // _root is in scope, so shared root files are not counted as kept_shared.
    // config is still shared-only → 1 kept_shared (config/config.exs).
    assert_eq!(result.stats.kept_shared, 1);
}

#[test]
fn empty_scope_keeps_only_shared() {
    let result = filter_files_by_scope(UMBRELLA_FILES, &[]);
    assert!(result.stats.filtered);
    assert_eq!(result.stats.after, 4); // 3 _root + 1 config
    assert_eq!(result.stats.kept_shared, 4);
    assert!(result.stats.module_keys.is_empty());
}

#[test]
fn scoped_module_keys_deduplicate_duplicates() {
    let scope = [
        ModuleKey::new("apps/alpha"),
        ModuleKey::new("apps/alpha"),
        ModuleKey::new("apps/beta"),
        ModuleKey::new("apps/alpha"),
    ];
    let result = filter_files_by_scope(UMBRELLA_FILES, &scope);
    assert_eq!(
        result
            .stats
            .module_keys
            .iter()
            .map(ModuleKey::as_str)
            .collect::<Vec<_>>(),
        vec!["apps/alpha", "apps/beta"]
    );
    // Filtering still uses a set, so duplicates do not change kept counts.
    assert_eq!(result.stats.after, 8);
    assert_eq!(result.stats.kept_shared, 4);
}

#[test]
fn unscoped_filter_stats_sorts_unsorted_input() {
    // Intentionally reverse of baseline order; output must still sort.
    let modules = vec![
        ModuleCount {
            key: ModuleKey::new("config"),
            count: 1,
        },
        ModuleCount {
            key: ModuleKey::new("_root"),
            count: 3,
        },
        ModuleCount {
            key: ModuleKey::new("apps/gamma"),
            count: 2,
        },
        ModuleCount {
            key: ModuleKey::new("apps/alpha"),
            count: 2,
        },
    ];
    let stats = unscoped_filter_stats(10, &modules);
    assert_eq!(
        stats
            .module_keys
            .iter()
            .map(ModuleKey::as_str)
            .collect::<Vec<_>>(),
        vec!["apps/alpha", "apps/gamma", "_root", "config"]
    );
}


use decon::module::{discover_modules, module_key, ModuleCount, ModuleKey, ROOT_MODULE};

#[test]
fn module_key_root_level_file_is_root() {
    assert_eq!(module_key("README.md").as_str(), ModuleKey::ROOT);
    assert_eq!(module_key(".env.example").as_str(), "_root");
    assert_eq!(module_key("pyproject.toml").as_str(), "_root");
}

#[test]
fn module_key_apps_is_two_level() {
    assert_eq!(module_key("apps/alpha/lib/alpha.ex").as_str(), "apps/alpha");
    assert_eq!(module_key("apps/beta/mix.exs").as_str(), "apps/beta");
    assert_eq!(module_key("apps/gamma/lib/gamma.ex").as_str(), "apps/gamma");
}

#[test]
fn module_key_file_directly_under_apps_is_apps_not_app_name() {
    // Regression: do not treat `apps/README.md` as umbrella app "README.md".
    assert_eq!(module_key("apps/README.md").as_str(), "apps");
    assert_eq!(module_key("apps/mix.exs").as_str(), "apps");
}

#[test]
fn module_key_bare_apps_filename_is_root() {
    // Single path component named `apps` is a root-level file, not an app.
    assert_eq!(module_key("apps").as_str(), ModuleKey::ROOT);
}

#[test]
fn module_key_top_level_directory() {
    assert_eq!(module_key("src/index.ts").as_str(), "src");
    assert_eq!(module_key("src/mylib/core.py").as_str(), "src");
    assert_eq!(module_key("config/config.exs").as_str(), "config");
}

#[test]
fn discover_modules_python_lib_matches_baseline() {
    let files = [
        ".env.example",
        "README.md",
        "pyproject.toml",
        "src/mylib/__init__.py",
        "src/mylib/cli.py",
        "src/mylib/core.py",
    ];
    let inv = discover_modules(&files);
    assert_eq!(
        inv.iter()
            .map(|m| (m.key.as_str(), m.count))
            .collect::<Vec<_>>(),
        vec![("_root", 3), ("src", 3)]
    );
}

#[test]
fn discover_modules_umbrella_matches_baseline() {
    let files = [
        ".env.example",
        "README.md",
        "apps/alpha/lib/alpha.ex",
        "apps/alpha/mix.exs",
        "apps/beta/lib/beta.ex",
        "apps/beta/mix.exs",
        "apps/gamma/lib/gamma.ex",
        "apps/gamma/mix.exs",
        "config/config.exs",
        "mix.exs",
    ];
    let inv = discover_modules(&files);
    assert_eq!(
        inv.iter()
            .map(|m| (m.key.as_str(), m.count))
            .collect::<Vec<_>>(),
        vec![
            ("apps/alpha", 2),
            ("apps/beta", 2),
            ("apps/gamma", 2),
            ("_root", 3),
            ("config", 1),
        ]
    );
}

#[test]
fn discover_modules_js_lib_matches_baseline() {
    let files = [
        ".env.example",
        "README.md",
        "package.json",
        "src/index.ts",
        "src/utils.ts",
        "tsconfig.json",
    ];
    let inv = discover_modules(&files);
    assert_eq!(
        inv.iter()
            .map(|m| (m.key.as_str(), m.count))
            .collect::<Vec<_>>(),
        vec![("_root", 4), ("src", 2)]
    );
}

#[test]
fn discover_modules_empty_input() {
    let inv = discover_modules(&[]);
    assert!(inv.is_empty());
}

#[test]
fn module_key_display_and_as_ref() {
    let key = module_key("src/main.rs");
    assert_eq!(key.to_string(), "src");
    assert_eq!(AsRef::<str>::as_ref(&key), "src");
    let owned: String = key.clone().into();
    assert_eq!(owned, "src");
}


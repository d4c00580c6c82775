use decon::abstraction::{Abstraction, AbstractionKind, IdentifyResult, Relationship, Tier};
use decon::budget::{estimate_budget, truncate_content, BudgetConfig, FileSize};
use decon::config::{canonical_config_json, config_from_env_map, resolve_config, ConfigError, RunConfig};
use decon::llm::openai::parse_retry_after_secs;
use decon::pipeline::identify::{render_identify_prompt, IdentifySingleShotInput};
use decon::pipeline::prompts::{PromptError, PromptId, PromptRenderer};
use decon::crawl::{crawl_result_from_entries, is_hidden_name, posix_path, CrawlError};
use decon::eval::{evaluate_tutorial, TutorialFile, DEFAULT_EVAL_PASS_THRESHOLD};
use decon::mermaid::{sanitize_label, sanitize_mermaid, validate_mermaid};
use decon::module::ModuleKey;
use decon::pipeline::prompts::sanitize_template_input;

fn vars(pairs: &[(&str, &str)]) -> Vec<(String, String)> {
    pairs
        .iter()
        .map(|(k, v)| (k.to_string(), v.to_string()))
        .collect()
}

// ---- sanitizing keeps mermaid source safe --------------------------------

#[test]
fn sanitized_label_is_short_and_safe() {
    let raw = "A \"very\" long; label # with [brackets] and (parens) that keeps on going and going";
    let out = sanitize_label(raw);
    assert!(out.chars().count() <= 40, "{out:?}");
    assert!(!out.contains('"') && !out.contains('#') && !out.contains(';'));
    assert!(out.starts_with("A very long label with"));
}

#[test]
fn sanitized_mermaid_has_no_forbidden_characters() {
    let src = "flowchart LR\n  A[\"x#1\"] --> B;\n";
    let out = sanitize_mermaid(src);
    assert!(!out.contains('"') && !out.contains('#') && !out.contains(';'), "{out:?}");
    assert!(validate_mermaid(&out).valid);
}

// ---- truncation and packing bounds ---------------------------------------

#[test]
fn truncated_text_never_exceeds_budget() {
    let content = "abcdefghij".repeat(10);
    for max in [0usize, 1, 5, 19, 20, 25, 50, 99, 100, 150] {
        let r = truncate_content(&content, max);
        assert!(r.text.chars().count() <= max, "max={max}");
        assert_eq!(r.original_chars, 100);
        assert_eq!(r.truncated, 100 > max);
    }
    let r = truncate_content(&content, 29);
    assert_eq!(r.text, format!("abcde\n...[truncated]...\nfghij"));
}

fn fs(path: &str, chars: usize, module: &str) -> FileSize {
    FileSize {
        path: path.to_string(),
        chars,
        module: ModuleKey::new(module),
    }
}

#[test]
fn batches_never_exceed_file_count() {
    let cfg = BudgetConfig {
        max_file_chars: 1000,
        batch_char_budget: 10,
        chars_per_token: 4,
        max_full_files_per_module: 40,
    };
    let files = vec![fs("a/1", 50, "a"), fs("b/1", 5, "b"), fs("c/1", 5, "c")];
    let e = estimate_budget(&files, &cfg);
    assert!(e.batch_count >= 1 && e.batch_count <= e.module_count);
    assert!(e.oversized_batch);
    let empty = estimate_budget(&[], &cfg);
    assert_eq!(empty.batch_count, 0);
    assert!(!empty.oversized_batch);
}

// ---- configuration layers -------------------------------------------------

#[test]
fn later_layers_win_field_by_field() {
    let env = RunConfig {
        model: Some("env-model".into()),
        chars_per_token: Some(3),
        ..RunConfig::empty()
    };
    let file = RunConfig {
        model: Some("file-model".into()),
        ..RunConfig::empty()
    };
    let cli = RunConfig::empty();
    let r = resolve_config(&env, &file, &cli);
    assert_eq!(r.model.as_deref(), Some("file-model"));
    assert_eq!(r.chars_per_token, Some(3));
    assert_eq!(r.output.as_deref(), Some("output"));
    assert_eq!(r.apps, Some(vec![]));
    assert_eq!(RunConfig::empty().merge_layer(&r), r);
    assert_eq!(r.redacted_for_checkpoint(), r);
}

#[test]
fn env_numbers_accept_plus_sign_and_reject_overflow() {
    let ok = config_from_env_map(&vars(&[("DECON_MAX_LLM_CALLS", " +12 ")])).unwrap();
    assert_eq!(ok.max_llm_calls, Some(12));
    let max = config_from_env_map(&vars(&[("DECON_MAX_LLM_CALLS", "4294967295")])).unwrap();
    assert_eq!(max.max_llm_calls, Some(u32::MAX));
    match config_from_env_map(&vars(&[("DECON_MAX_LLM_CALLS", "4294967296")])) {
        Err(ConfigError::InvalidEnvValue { key, value }) => {
            assert_eq!(key, "DECON_MAX_LLM_CALLS");
            assert_eq!(value, "4294967296");
        }
        other => panic!("got {other:?}"),
    }
    for bad in ["+", "-1", "1_000", "12a", "0x10"] {
        assert!(
            config_from_env_map(&vars(&[("DECON_CHARS_PER_TOKEN", bad)])).is_err(),
            "{bad}"
        );
    }
}

#[test]
fn env_first_invalid_key_is_reported_in_fixed_order() {
    match config_from_env_map(&vars(&[
        ("DECON_CHARS_PER_TOKEN", "x"),
        ("DECON_BATCH_CHAR_BUDGET", "y"),
    ])) {
        Err(ConfigError::InvalidEnvValue { key, value }) => {
            assert_eq!(key, "DECON_BATCH_CHAR_BUDGET");
            assert_eq!(value, "y");
        }
        other => panic!("got {other:?}"),
    }
}

#[test]
fn env_paths_and_strings_are_trimmed() {
    let c = config_from_env_map(&vars(&[
        ("DECON_ROOT", "  /repo "),
        ("DECON_CACHE_DIR", "/c"),
        ("DECON_PROVIDER", "openai"),
        ("UNRELATED", "x"),
    ]))
    .unwrap();
    assert_eq!(c.root.as_deref(), Some("/repo"));
    assert_eq!(c.cache_dir.as_deref(), Some("/c"));
    assert_eq!(c.provider.as_deref(), Some("openai"));
    assert_eq!(c.output, None);
}

// ---- crawl inventory order ------------------------------------------------

#[test]
fn crawl_inventory_is_sorted_with_sizes() {
    let r = crawl_result_from_entries(vec![
        ("src/b.rs".to_string(), 2),
        ("README.md".to_string(), 1),
        ("src/a.rs".to_string(), 3),
        (".hidden".to_string(), 4),
    ]);
    assert_eq!(r.files, vec![".hidden", "README.md", "src/a.rs", "src/b.rs"]);
    assert_eq!(r.sizes, vec![4, 1, 3, 2]);
    assert_eq!(r.file_count(), 4);
    let pairs = r.iter();
    assert_eq!(pairs[2], ("src/a.rs".to_string(), 3));
}

#[test]
fn crawl_paths_use_forward_slashes() {
    assert_eq!(posix_path("src\\lib\\mod.rs"), "src/lib/mod.rs");
    assert_eq!(posix_path("a/b"), "a/b");
    assert_eq!(
        CrawlError::Io {
            path: "/x".to_string(),
            message: "denied".to_string(),
        }
        .to_string(),
        "failed to access directory /x: denied"
    );
    assert_eq!(
        CrawlError::NonUtf8Path("/x".to_string()).to_string(),
        "path is not valid UTF-8: /x"
    );
}

// ---- tiers and domain constructors ----------------------------------------

#[test]
fn tier_text_round_trips() {
    for t in [Tier::S, Tier::M, Tier::L] {
        assert_eq!(Tier::parse(t.as_str()), Some(t));
        assert_eq!(t.to_string(), t.as_str());
    }
    assert_eq!(Tier::parse("s"), None);
    assert_eq!(Tier::parse(""), None);
}

#[test]
fn domain_constructors_start_empty() {
    let a = Abstraction::new("Core", "desc", Tier::M, "module");
    assert_eq!(a.name, "Core");
    assert_eq!(a.kind, AbstractionKind::new("module"));
    assert!(a.file_indices.is_empty() && a.apps.is_empty() && a.entry_files.is_empty());
    let r = Relationship::new(0, 1, "uses", "call");
    assert_eq!((r.from, r.to, r.label.as_str(), r.kind.as_str()), (0, 1, "uses", "call"));
    let res = IdentifyResult::new(vec![a.clone()]);
    assert_eq!(res.abstractions, vec![a]);
}

// ---- tutorial scoring -----------------------------------------------------

fn tf(path: &str, content: &str) -> TutorialFile {
    TutorialFile {
        path: path.into(),
        content: content.into(),
    }
}

#[test]
fn full_marks_for_complete_tutorial() {
    let files = vec![
        tf(
            "index.md",
            "# I\n\n```mermaid\nflowchart LR\n  A0[x]\n```\n\n[C](ch/a.md)\n",
        ),
        tf("ch/a.md", "# Setup\n\n`src/main.rs`\n\n## Evidence\n\nok\n"),
    ];
    let r = evaluate_tutorial(&files, DEFAULT_EVAL_PASS_THRESHOLD);
    assert_eq!(r.score, 100);
    assert!(r.passed);
    assert!(r.reasons.is_empty());
}

#[test]
fn link_ratio_rounds_half_up() {
    let files = vec![
        tf(
            "index.md",
            "# I\n\n```mermaid\nflowchart LR\n  A0[x]\n```\n\n[C](ch/a.md) [D](ch/missing.md)\n",
        ),
        tf("ch/a.md", "# Setup\n\n`src/main.rs`\n\n## Evidence\n\nok\n"),
    ];
    let r = evaluate_tutorial(&files, 99);
    assert_eq!(r.checks.links_total, 2);
    assert_eq!(r.checks.links_resolved, 1);
    assert_eq!(r.score, 98);
    assert!(!r.passed);
    assert_eq!(r.reasons, vec!["broken internal links: 1/2 resolve".to_string()]);
}

// ---- prompt input sanitizing ----------------------------------------------

#[test]
fn sanitized_input_has_no_template_delimiters() {
    for raw in ["{{ x }}", "{% if %}{%}", "a{{b}}c{%d%}e", "{%%}", "}}{{", "{{{{", "%}}}"] {
        let out = sanitize_template_input(raw);
        assert!(
            !out.contains("{{") && !out.contains("}}") && !out.contains("{%") && !out.contains("%}"),
            "{raw:?} -> {out:?}"
        );
    }
    // Runs of braces are broken at every pair.
    assert_eq!(sanitize_template_input("{{{"), "{ { {");
    assert_eq!(sanitize_template_input("}}}"), "} } }");
    assert_eq!(sanitize_template_input("{%}"), "{ % }");
    assert_eq!(
        sanitize_template_input("function foo() { return 1; }"),
        "function foo() { return 1; }"
    );
}

#[test]
fn diagram_stub_is_valid() {
    let stub = sanitize_mermaid("flowchart TD\n  X0[Diagram unavailable]\n");
    assert!(validate_mermaid(&stub).valid, "{stub:?}");
    assert_eq!(stub, "flowchart TD\n  X0[Diagram unavailable]");
}

#[test]
fn hidden_names_start_with_a_dot() {
    assert!(is_hidden_name(".git"));
    assert!(is_hidden_name("."));
    assert!(!is_hidden_name("src"));
    assert!(!is_hidden_name(""));
    assert!(!is_hidden_name("a.b"));
}

#[test]
fn canonical_json_of_defaults() {
    let j = canonical_config_json(&RunConfig::default()).unwrap();
    assert_eq!(
        j,
        "{\"apps\":[],\"chars_per_token\":4,\"language\":\"en\",\"max_llm_calls\":200,\"output\":\"output\",\"root\":\".\"}"
    );
    let c = RunConfig {
        apps: Some(vec!["apps/a".into(), "b\"c".into()]),
        ..RunConfig::empty()
    };
    assert_eq!(canonical_config_json(&c).unwrap(), "{\"apps\":[\"apps/a\",\"b\\\"c\"]}");
    assert_eq!(canonical_config_json(&RunConfig::empty()).unwrap(), "{}");
}

#[test]
fn prompt_renderer_substitutes_and_reports_errors() {
    let renderer = PromptRenderer::new(vec!["Hello {{ name }}!".to_string()]);
    let vars = vec![("name".to_string(), "World".to_string())];
    assert_eq!(
        renderer.render(PromptId::IdentifySingleShot, &vars).unwrap(),
        "Hello World!"
    );
    match renderer.render(PromptId::IdentifySingleShot, &[]) {
        Err(PromptError::Render(_)) => {}
        other => panic!("expected Render, got {other:?}"),
    }
    match renderer.render(PromptId::IdentifyMap, &vars) {
        Err(PromptError::NotFound(n)) => assert_eq!(n, "identify_map.md.j2"),
        other => panic!("expected NotFound, got {other:?}"),
    }
}

#[test]
fn identify_prompt_renders_sanitized_fields() {
    let renderer = PromptRenderer::new(vec![
        "{{ project_name }}|{{ context }}|{{ language_instruction }}|{{ max_abstraction_num }}|{{ name_lang_hint }}|{{ desc_lang_hint }}\n{{ file_listing }}"
            .to_string(),
    ]);
    let input = IdentifySingleShotInput {
        files: vec!["a.rs".to_string(), "b.rs".to_string()],
        project_name: "p{{x}}".to_string(),
        language_instruction: "en".to_string(),
        lang_note: "n".to_string(),
        max_abstraction_num: 5,
    };
    assert_eq!(
        render_identify_prompt(&renderer, &input).unwrap(),
        "p{ {x} }||en|5|n|n\n0 # a.rs\n1 # b.rs"
    );
}

#[test]
fn retry_after_header_values() {
    assert_eq!(parse_retry_after_secs(" 7 "), Some(7));
    assert_eq!(parse_retry_after_secs("+3"), Some(3));
    assert_eq!(parse_retry_after_secs("18446744073709551615"), Some(u64::MAX));
    assert_eq!(parse_retry_after_secs("18446744073709551616"), None);
    assert_eq!(parse_retry_after_secs("Wed, 21 Oct 2015 07:28:00 GMT"), None);
    assert_eq!(parse_retry_after_secs(""), None);
}

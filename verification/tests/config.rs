use decon::config::{canonical_config_json, config_from_env_map, resolve_config, ConfigError, RunConfig, DEFAULT_MAX_LLM_CALLS};

#[test]
fn defaults_are_populated() {
    let d = RunConfig::default();
    assert_eq!(d.root.as_deref(), Some("."));
    assert_eq!(d.max_llm_calls, Some(DEFAULT_MAX_LLM_CALLS));
    assert_eq!(d.language.as_deref(), Some("en"));
}

#[test]
fn precedence_cli_beats_file_beats_env_beats_defaults() {
    let env = RunConfig {
        language: Some("fr".into()),
        max_llm_calls: Some(10),
        ..RunConfig::empty()
    };

    let file = RunConfig {
        language: Some("es".into()),
        provider: Some("openai".into()),
        ..RunConfig::empty()
    };

    let cli = RunConfig {
        language: Some("de".into()),
        ..RunConfig::empty()
    };

    let resolved = resolve_config(&env, &file, &cli);
    assert_eq!(resolved.language.as_deref(), Some("de")); // CLI
    assert_eq!(resolved.provider.as_deref(), Some("openai")); // file
    assert_eq!(resolved.max_llm_calls, Some(10)); // env
    assert_eq!(resolved.root.as_deref(), Some(".")); // default
}

#[test]
fn blank_env_does_not_override_defaults() {
    let mut vars: Vec<(String, String)> = Vec::new();
    vars.push(("DECON_LANGUAGE".into(), "   ".into()));
    vars.push(("DECON_MAX_LLM_CALLS".into(), "".into()));
    vars.push(("DECON_ROOT".into(), "/tmp/repo".into()));
    let env = config_from_env_map(&vars).expect("env map");
    let resolved = resolve_config(&env, &RunConfig::empty(), &RunConfig::empty());
    assert_eq!(resolved.language.as_deref(), Some("en")); // default, blank ignored
    assert_eq!(resolved.max_llm_calls, Some(DEFAULT_MAX_LLM_CALLS));
    assert_eq!(
        resolved.root.as_deref(),
        Some("/tmp/repo")
    );
}

#[test]
fn env_apps_comma_separated() {
    let mut vars: Vec<(String, String)> = Vec::new();
    vars.push(("DECON_APPS".into(), "apps/a, apps/b ,".into()));
    let env = config_from_env_map(&vars).expect("env map");
    assert_eq!(
        env.apps.as_deref(),
        Some(["apps/a".to_owned(), "apps/b".to_owned()].as_slice())
    );
}

#[test]
fn invalid_env_numeric_errors() {
    let mut vars: Vec<(String, String)> = Vec::new();
    vars.push(("DECON_MAX_LLM_CALLS".into(), "abc".into()));
    let err = config_from_env_map(&vars).unwrap_err();
    assert!(
        matches!(
            err,
            ConfigError::InvalidEnvValue { ref key, .. } if key == "DECON_MAX_LLM_CALLS"
        ),
        "got {err:?}"
    );
}


#[test]
fn canonical_json_is_stable_and_key_ordered() {
    let a = RunConfig {
        provider: Some("x".into()),
        ..RunConfig::default()
    };
    let b = RunConfig {
        provider: Some("x".into()),
        ..RunConfig::default()
    };
    let ja = canonical_config_json(&a).unwrap();
    let jb = canonical_config_json(&b).unwrap();
    assert_eq!(ja, jb);
    assert!(ja.find("apps").unwrap() < ja.find("language").unwrap());
    let b2 = RunConfig {
        provider: Some("y".into()),
        ..RunConfig::default()
    };
    assert_ne!(
        canonical_config_json(&a).unwrap(),
        canonical_config_json(&b2).unwrap()
    );
}

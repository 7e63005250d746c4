use langcodec_cli::config::{
    resolve_config_relative_path, CliConfig, LoadedConfig, TolgeePushFileConfig, TranslateOutputConfig,
    TranslateOutputScope, UserConfig, UserTolgeeProjectConfig,
};

fn provider_config() -> CliConfig {
    // [openai] model = "gpt-5.4"; [anthropic] model = "sonnet-4"
    let mut config = CliConfig::default();
    config.openai.model = Some("gpt-5.4".to_string());
    config.anthropic.model = Some("sonnet-4".to_string());
    config
}

#[test]
fn cli_config_lists_provider_sections() {
    let config = provider_config();
    assert_eq!(config.configured_provider_names(), vec!["openai", "anthropic"]);
}

#[test]
fn cli_config_reads_provider_specific_models() {
    let config = provider_config();
    assert_eq!(config.provider_model("openai"), Some("gpt-5.4"));
    assert_eq!(config.provider_model("anthropic"), Some("sonnet-4"));
    assert_eq!(config.provider_model("gemini"), None);
}

#[test]
fn provider_model_ignores_case_and_surrounding_space() {
    let config = provider_config();
    assert_eq!(config.provider_model("  OpenAI "), Some("gpt-5.4"));
    assert_eq!(config.provider_model("mistral"), None);
}

#[test]
fn provider_name_normalized_again_selects_the_same_model() {
    let config = provider_config();
    for name in ["  OpenAI ", "\tANTHROPIC", "Gemini\n", " Mistral ", ""] {
        let normalized = name.trim().to_ascii_lowercase();
        assert_eq!(config.provider_model(name), config.provider_model(&normalized));
    }
    assert_eq!(config.provider_model(" open ai "), None);
}

#[test]
fn resolve_config_relative_path_uses_config_dir() {
    let resolved = resolve_config_relative_path(Some("/tmp/project"), "locales/Localizable.xcstrings");
    assert_eq!(resolved, "/tmp/project/locales/Localizable.xcstrings");
}

#[test]
fn resolve_config_relative_path_keeps_absolute_paths() {
    assert_eq!(resolve_config_relative_path(Some("/tmp/project"), "/abs/file.strings"), "/abs/file.strings");
    assert_eq!(resolve_config_relative_path(None, "rel/file.strings"), "rel/file.strings");
    assert_eq!(resolve_config_relative_path(Some("/tmp/project/"), "a.csv"), "/tmp/project/a.csv");
    assert_eq!(resolve_config_relative_path(Some(""), "a.csv"), "a.csv");
}

#[test]
fn load_config_parses_nested_translate_input_output_sections() {
    let mut config = CliConfig::default();
    config.translate.input.source = Some("locales/Localizable.xcstrings".to_string());
    config.translate.input.lang = Some("en".to_string());
    config.translate.input.status = Some(vec!["new".to_string(), "stale".to_string()]);
    config.translate.output = Some(TranslateOutputScope::Config(TranslateOutputConfig {
        target: Some("locales/Translated.xcstrings".to_string()),
        path: Some("build/Translated.xcstrings".to_string()),
        lang: Some(vec!["fr".to_string(), "de".to_string()]),
        status: Some("translated".to_string()),
    }));

    assert_eq!(config.translate.resolved_source(), Some("locales/Localizable.xcstrings"));
    assert_eq!(config.translate.resolved_source_lang(), Some("en"));
    assert_eq!(
        config.translate.resolved_filter_status(),
        Some(&vec!["new".to_string(), "stale".to_string()])
    );
    assert_eq!(config.translate.resolved_target(), Some("locales/Translated.xcstrings"));
    assert_eq!(config.translate.resolved_output_path(), Some("build/Translated.xcstrings"));
    assert_eq!(
        config.translate.resolved_target_langs(),
        Some(&vec!["fr".to_string(), "de".to_string()])
    );
    assert_eq!(config.translate.resolved_output_status(), Some("translated"));
}

#[test]
fn translate_output_path_form_and_top_level_fallbacks() {
    let mut config = CliConfig::default();
    config.translate.source = Some("top.xcstrings".to_string());
    config.translate.target = Some("target.xcstrings".to_string());
    config.translate.target_lang = Some(vec!["ja".to_string()]);
    config.translate.output_status = Some("needs_review".to_string());
    config.translate.output = Some(TranslateOutputScope::Path("out.xcstrings".to_string()));

    assert_eq!(config.translate.resolved_source(), Some("top.xcstrings"));
    assert_eq!(config.translate.resolved_target(), Some("target.xcstrings"));
    assert_eq!(config.translate.resolved_output_path(), Some("out.xcstrings"));
    assert_eq!(config.translate.resolved_target_langs(), Some(&vec!["ja".to_string()]));
    assert_eq!(config.translate.resolved_output_status(), Some("needs_review"));
}

#[test]
fn load_config_parses_tolgee_defaults() {
    let mut config = CliConfig::default();
    config.tolgee.config = Some(".tolgeerc.json".to_string());
    config.tolgee.project_id = Some(36);
    config.tolgee.api_url = Some("https://tolgee.example/api".to_string());
    config.tolgee.api_key = Some("tgpak_example".to_string());
    config.tolgee.format = Some("APPLE_XCSTRINGS".to_string());
    config.tolgee.schema = Some("https://docs.tolgee.io/cli-schema.json".to_string());
    config.tolgee.namespaces = Some(vec!["WebGame".to_string()]);
    config.tolgee.push.languages = Some(vec!["en".to_string()]);
    config.tolgee.push.force_mode = Some("KEEP".to_string());
    config.tolgee.push.files = vec![TolgeePushFileConfig {
        path: "Modules/WebGame/Localizable.xcstrings".to_string(),
        namespace: "WebGame".to_string(),
    }];
    config.tolgee.pull.path = Some("./tolgee-temp".to_string());
    config.tolgee.pull.file_structure_template = Some("/{namespace}/Localizable.{extension}".to_string());
    config.translate.use_tolgee = Some(true);

    assert_eq!(config.tolgee.push.files.len(), 1);
    assert!(config.tolgee.has_inline_runtime_config());
    assert_eq!(config.translate.use_tolgee, Some(true));
}

#[test]
fn tolgee_without_inline_settings_has_no_runtime_config() {
    let config = CliConfig::default();
    assert!(!config.tolgee.has_inline_runtime_config());
}

fn user_config(project_key: bool) -> UserConfig {
    let mut config = UserConfig::default();
    config.tolgee.api_key = Some("tgpak_user_default_key".to_string());
    if project_key {
        config.tolgee.projects = vec![(
            "36".to_string(),
            UserTolgeeProjectConfig { api_key: Some("tgpak_project_specific_key".to_string()) },
        )];
    }
    config
}

#[test]
fn user_config_parses_tolgee_global_api_key() {
    let config = user_config(false);
    assert_eq!(config.tolgee.api_key.as_deref(), Some("tgpak_user_default_key"));
    assert_eq!(config.tolgee.api_key_for_project(Some(36)), Some("tgpak_user_default_key"));
}

#[test]
fn user_config_parses_tolgee_project_api_key() {
    let config = user_config(true);
    assert_eq!(config.tolgee.api_key_for_project(Some(36)), Some("tgpak_project_specific_key"));
    assert_eq!(config.tolgee.api_key_for_project(Some(37)), Some("tgpak_user_default_key"));
    assert_eq!(config.tolgee.api_key_for_project(None), Some("tgpak_user_default_key"));
}

#[test]
fn loaded_config_dir_is_the_parent_of_its_path() {
    let loaded = LoadedConfig { path: "/tmp/project/langcodec.toml".to_string(), data: CliConfig::default() };
    assert_eq!(loaded.config_dir(), Some("/tmp/project".to_string()));
}

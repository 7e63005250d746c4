use langcodec_cli::config::{UserConfig, UserTolgeeProjectConfig};
use langcodec_cli::langid::language_identity_eq;
use langcodec_cli::model::{Codec, Entry, EntryStatus, Metadata, Resource, Translation};
use langcodec_cli::tolgee::{
    describe_namespaces, merge_tolgee_catalog, pulled_path_for_namespace, resolve_tolgee_user_api_key,
    TolgeeCredentialFacts, TolgeeProject,
};

fn test_entry(id: &str, value: Translation) -> Entry {
    Entry { id: id.to_string(), value, comment: None, status: EntryStatus::Translated }
}

fn test_resource(language: &str, entries: Vec<Entry>) -> Resource {
    Resource {
        metadata: Metadata { language: language.to_string(), domain: String::new(), custom: Vec::new() },
        entries,
    }
}

fn singular(s: &str) -> Translation {
    Translation::Singular(s.to_string())
}

fn singular_text(codec: &Codec, key: &str, lang: &str) -> Option<String> {
    match codec.find_entry(key, lang).map(|e| &e.value) {
        Some(Translation::Singular(s)) => Some(s.clone()),
        _ => None,
    }
}

#[test]
fn merge_tolgee_catalog_updates_existing_keys_and_skips_new_ones() {
    let mut local = Codec::new();
    local.add_resource(test_resource("en", vec![test_entry("welcome", singular("Welcome"))]));

    let pulled = Codec {
        resources: vec![test_resource(
            "fr",
            vec![
                Entry {
                    id: "welcome".to_string(),
                    value: singular("Bienvenue"),
                    comment: Some("Greeting".to_string()),
                    status: EntryStatus::Translated,
                },
                test_entry("new_only", singular("Nouveau")),
            ],
        )],
    };

    let report = merge_tolgee_catalog(&mut local, &pulled, &[]).unwrap();
    assert_eq!(report.merged, 1);
    assert_eq!(report.skipped_new_keys, 1);

    let fr_entry = local.find_entry("welcome", "fr").expect("fr welcome");
    assert!(matches!(&fr_entry.value, Translation::Singular(s) if s == "Bienvenue"));
    assert_eq!(fr_entry.comment.as_deref(), Some("Greeting"));
    assert!(local.find_entry("new_only", "fr").is_none());
}

#[test]
fn merge_tolgee_catalog_keeps_script_variants_distinct() {
    let mut local = Codec { resources: vec![test_resource("en", vec![test_entry("welcome", singular("Welcome"))])] };
    let pulled = Codec {
        resources: vec![
            test_resource("zh-Hans", vec![test_entry("welcome", singular("欢迎"))]),
            test_resource("zh-Hant", vec![test_entry("welcome", singular("歡迎"))]),
        ],
    };

    let report = merge_tolgee_catalog(&mut local, &pulled, &["zh-Hans".to_string()]).unwrap();

    assert_eq!(report.merged, 1);
    assert_eq!(singular_text(&local, "welcome", "zh-Hans").as_deref(), Some("欢迎"));
    assert!(local.get_by_language("zh-Hant").is_none());
}

#[test]
fn merge_tolgee_catalog_resolves_bare_language_to_sole_variant() {
    let mut local = Codec {
        resources: vec![
            test_resource("en", vec![test_entry("welcome", singular("Welcome"))]),
            test_resource("fr", vec![test_entry("welcome", Translation::Empty)]),
        ],
    };
    let pulled = Codec { resources: vec![test_resource("fr-CA", vec![test_entry("welcome", singular("Bienvenue"))])] };

    let report = merge_tolgee_catalog(&mut local, &pulled, &["fr".to_string()]).unwrap();

    assert_eq!(report.merged, 1);
    assert_eq!(singular_text(&local, "welcome", "fr").as_deref(), Some("Bienvenue"));
    assert!(local.get_by_language("fr-CA").is_none());
}

#[test]
fn merge_tolgee_catalog_rejects_ambiguous_bare_language() {
    let mut local = Codec { resources: vec![test_resource("en", vec![test_entry("welcome", singular("Welcome"))])] };
    let pulled = Codec {
        resources: vec![
            test_resource("fr-FR", vec![test_entry("welcome", singular("Bienvenue"))]),
            test_resource("fr-CA", vec![test_entry("welcome", singular("Bienvenue"))]),
        ],
    };

    let err = merge_tolgee_catalog(&mut local, &pulled, &["fr".to_string()]).err().unwrap();

    assert_eq!(
        err,
        "Tolgee target language 'fr' is ambiguous; matching variants: fr-CA, fr-FR. Specify a fully-qualified target language"
    );
    assert!(local.get_by_language("fr-FR").is_none());
    assert!(local.get_by_language("fr-CA").is_none());
}

#[test]
fn merge_tolgee_catalog_prefers_exact_bare_identity_over_variants() {
    let mut local = Codec { resources: vec![test_resource("en", vec![test_entry("welcome", singular("Welcome"))])] };
    let pulled = Codec {
        resources: vec![
            test_resource("fr-CA", vec![test_entry("welcome", singular("Allo"))]),
            test_resource("fr", vec![test_entry("welcome", singular("Bonjour"))]),
            test_resource("fr-FR", vec![test_entry("welcome", singular("Salut"))]),
        ],
    };

    let report = merge_tolgee_catalog(&mut local, &pulled, &["fr".to_string()]).unwrap();

    assert_eq!(report.merged, 1);
    assert_eq!(singular_text(&local, "welcome", "fr").as_deref(), Some("Bonjour"));
    assert!(local.get_by_language("fr-CA").is_none());
    assert!(local.get_by_language("fr-FR").is_none());
}

#[test]
fn merge_tolgee_catalog_reuses_normalized_local_identity() {
    let mut local = Codec {
        resources: vec![
            test_resource("en", vec![test_entry("welcome", singular("Welcome"))]),
            test_resource("fr_CA", vec![test_entry("welcome", Translation::Empty)]),
        ],
    };
    let pulled = Codec { resources: vec![test_resource("fr-CA", vec![test_entry("welcome", singular("Bienvenue"))])] };

    let report = merge_tolgee_catalog(&mut local, &pulled, &["FR-ca".to_string()]).unwrap();

    assert_eq!(report.merged, 1);
    assert_eq!(
        local.resources.iter().filter(|resource| language_identity_eq(&resource.metadata.language, "fr-CA")).count(),
        1
    );
    assert_eq!(singular_text(&local, "welcome", "fr_CA").as_deref(), Some("Bienvenue"));
}

#[test]
fn merge_tolgee_catalog_rejects_duplicate_normalized_identities_deterministically() {
    let mut local = Codec { resources: vec![test_resource("fr_CA", Vec::new()), test_resource("fr-CA", Vec::new())] };
    let pulled = Codec::new();

    let err = merge_tolgee_catalog(&mut local, &pulled, &[]).err().unwrap();

    assert_eq!(err, "Local catalog contains duplicate normalized language identities: fr-ca (fr-CA, fr_CA)");
}

#[test]
fn merge_tolgee_catalog_rejects_duplicate_pulled_identities_before_merging() {
    let mut local = Codec { resources: vec![test_resource("en", vec![test_entry("welcome", singular("Welcome"))])] };
    let pulled = Codec {
        resources: vec![
            test_resource("zh_Hans", vec![test_entry("welcome", singular("欢迎"))]),
            test_resource("zh-Hans", vec![test_entry("welcome", singular("您好"))]),
        ],
    };

    let err = merge_tolgee_catalog(&mut local, &pulled, &[]).err().unwrap();

    assert_eq!(
        err,
        "Pulled Tolgee catalog contains duplicate normalized language identities: zh-hans (zh-Hans, zh_Hans)"
    );
    assert!(local.get_by_language("zh-Hans").is_none());
    assert!(local.get_by_language("zh_Hans").is_none());
}

fn project(template: &str) -> TolgeeProject {
    TolgeeProject {
        config_path: "/tmp/.tolgeerc.json".to_string(),
        project_root: "/tmp".to_string(),
        user_api_key: None,
        pull_template: template.to_string(),
        mappings: Vec::new(),
    }
}

#[test]
fn pulled_path_rejects_language_tag_templates() {
    let err = pulled_path_for_namespace(&project("/{namespace}/{languageTag}.{extension}"), "/tmp/pull", "Core")
        .unwrap_err();
    assert!(err.contains("{languageTag}"));
}

#[test]
fn pulled_path_fills_namespace_and_extension() {
    let path = pulled_path_for_namespace(&project("/{namespace}/Localizable.{extension}"), "/tmp/pull", "Core")
        .unwrap();
    assert_eq!(path, "/tmp/pull/Core/Localizable.xcstrings");
}

#[test]
fn resolves_tolgee_credentials_by_precedence() {
    let mut user_config = UserConfig::default();
    user_config.tolgee.api_key = Some("tgpak_user_global".to_string());
    user_config.tolgee.projects = vec![(
        "36".to_string(),
        UserTolgeeProjectConfig { api_key: Some("tgpak_user_project".to_string()) },
    )];

    let project_key = resolve_tolgee_user_api_key(
        &TolgeeCredentialFacts { has_api_key: true, project_id: Some(36) },
        Some(&user_config),
    );
    assert_eq!(project_key, None);

    let user_project_key = resolve_tolgee_user_api_key(
        &TolgeeCredentialFacts { has_api_key: false, project_id: Some(36) },
        Some(&user_config),
    );
    assert_eq!(user_project_key.as_deref(), Some("tgpak_user_project"));

    let user_global_key = resolve_tolgee_user_api_key(
        &TolgeeCredentialFacts { has_api_key: false, project_id: Some(37) },
        Some(&user_config),
    );
    assert_eq!(user_global_key.as_deref(), Some("tgpak_user_global"));

    assert_eq!(
        resolve_tolgee_user_api_key(&TolgeeCredentialFacts { has_api_key: false, project_id: Some(36) }, None),
        None
    );
}

#[test]
fn namespaces_are_described() {
    assert_eq!(describe_namespaces(&Vec::new()), "(none)");
    assert_eq!(describe_namespaces(&vec!["Core".to_string()]), "Core");
    assert_eq!(describe_namespaces(&vec!["Core".to_string(), "Web".to_string()]), "Core, Web");
}

use langcodec_cli::config::{TolgeeConfig, TolgeePushFileConfig};
use langcodec_cli::tolgee::{
    check_push_selection, check_tolgee_format, find_mapping_for_catalog, needs_overlay_config,
    plan_tolgee_prefill, project_mappings, pull_closing, pull_template_or_default, runtime_config_from_toml,
    should_write_merged, MergeReport, PrefillStep, TranslateTolgeeSettings,
};

#[test]
fn inline_tolgee_section_becomes_a_runtime_config() {
    let mut tolgee = TolgeeConfig::default();
    assert_eq!(
        runtime_config_from_toml(&tolgee).unwrap_err(),
        "Tolgee [push.files] must contain at least one mapping"
    );
    tolgee.project_id = Some(36);
    tolgee.api_key = Some("tgpak_example".to_string());
    tolgee.push.languages = Some(vec!["en".to_string()]);
    tolgee.push.files = vec![TolgeePushFileConfig { path: "Localizable.xcstrings".to_string(), namespace: "Core".to_string() }];
    let config = runtime_config_from_toml(&tolgee).unwrap();
    assert_eq!(config.format, "APPLE_XCSTRINGS");
    assert_eq!(config.pull_path, "./tolgee-temp");
    assert_eq!(config.file_structure_template, "/{namespace}/Localizable.{extension}");
    assert_eq!(config.push_files, vec![("Localizable.xcstrings".to_string(), "Core".to_string())]);
    assert_eq!(config.project_id, Some(36));
    assert_eq!(config.api_key.as_deref(), Some("tgpak_example"));
    assert_eq!(config.push_languages, Some(vec!["en".to_string()]));
}

#[test]
fn project_format_and_mappings() {
    assert_eq!(check_tolgee_format(None).unwrap_err(), "Tolgee config is missing 'format'");
    assert_eq!(
        check_tolgee_format(Some("JSON")).unwrap_err(),
        "Unsupported Tolgee format 'JSON'. v1 supports only APPLE_XCSTRINGS"
    );
    assert!(check_tolgee_format(Some("APPLE_XCSTRINGS")).is_ok());
    assert_eq!(project_mappings("/repo", &Vec::new()).err().unwrap(), "Tolgee config push.files is empty");
    let mappings = project_mappings(
        "/repo",
        &vec![("./Modules//Core.xcstrings".to_string(), "Core".to_string()), ("/abs/Web.xcstrings".to_string(), "Web".to_string())],
    )
    .ok()
    .unwrap();
    assert_eq!(mappings[0].absolute_path, "/repo/Modules/Core.xcstrings");
    assert_eq!(mappings[0].relative_path, "./Modules//Core.xcstrings");
    assert_eq!(mappings[1].absolute_path, "/abs/Web.xcstrings");
    assert_eq!(find_mapping_for_catalog(&mappings, "/abs/Web.xcstrings"), Some(1));
    assert_eq!(find_mapping_for_catalog(&mappings, "/abs/Other.xcstrings"), None);
    assert_eq!(pull_template_or_default(None), "/{namespace}/Localizable.{extension}");
    assert!(check_push_selection(&mappings).is_ok());
    assert_eq!(check_push_selection(&Vec::new()).unwrap_err(), "No Tolgee namespaces matched the request");
}

#[test]
fn translate_prefill_decisions() {
    let mut settings = TranslateTolgeeSettings::disabled();
    assert!(matches!(plan_tolgee_prefill(&settings, Some("Core"), "L.xcstrings"), Ok(PrefillStep::Skip)));
    settings.enabled = true;
    assert!(matches!(plan_tolgee_prefill(&settings, None, "L.xcstrings"), Ok(PrefillStep::Skip)));
    assert!(matches!(plan_tolgee_prefill(&settings, Some("Core"), "L.xcstrings"), Ok(PrefillStep::Pull(ref n)) if n == "Core"));
    settings.namespaces = vec!["Web".to_string()];
    assert_eq!(
        plan_tolgee_prefill(&settings, None, "L.xcstrings").err().unwrap(),
        "Catalog 'L.xcstrings' is not configured in Tolgee push.files"
    );
    assert_eq!(
        plan_tolgee_prefill(&settings, Some("Core"), "L.xcstrings").err().unwrap(),
        "Catalog 'L.xcstrings' maps to Tolgee namespace 'Core' which is not included in --tolgee-namespace/[tolgee].namespaces"
    );
    settings.namespaces = vec!["Web".to_string(), "Core".to_string()];
    assert!(matches!(plan_tolgee_prefill(&settings, Some("Core"), "L.xcstrings"), Ok(PrefillStep::Pull(_))));
}

#[test]
fn overlay_and_pull_closing() {
    assert!(!needs_overlay_config("/repo/.tolgeerc.JSON", &Vec::new(), false));
    assert!(needs_overlay_config("/repo/.tolgeerc.json", &vec!["Core".to_string()], false));
    assert!(needs_overlay_config("/repo/.tolgeerc.json", &Vec::new(), true));
    assert!(needs_overlay_config("/repo/langcodec.toml", &Vec::new(), false));
    assert_eq!(pull_closing(false, 2), "Tolgee pull complete: updated 2 file(s)");
    assert_eq!(pull_closing(true, 2), "Dry-run mode: no files were written");
    assert!(should_write_merged(&MergeReport { merged: 1, skipped_new_keys: 0 }, false));
    assert!(!should_write_merged(&MergeReport { merged: 1, skipped_new_keys: 0 }, true));
    assert!(!should_write_merged(&MergeReport { merged: 0, skipped_new_keys: 3 }, false));
}

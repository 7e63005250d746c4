use langcodec_cli::config::{CliConfig, LoadedConfig};
use langcodec_cli::convert::FormatType;
use langcodec_cli::languages::{resolve_target_languages, select_source_resource};
use langcodec_cli::model::{Codec, Entry, EntryStatus, Metadata, Resource, Translation};
use langcodec_cli::translate::{plan_finish, FinishStep};
use langcodec_cli::translate::{
    build_jobs, build_prompt, format_inline_value, parse_output_status, parse_status_filter,
    read_model_reply, reply_payload_sources, run_outcome, ModelTranslationPayload, single_output_language, target_supports_explicit_status,
    summary_lines, translation_job_id, translation_result_lines, worker_count, BackendRequest,
    TranslateOptions, TranslationJob, TranslationResult, TranslationSummary, UiMode,
};
use langcodec_cli::translate_options::{
    check_output_format, check_path_languages, check_resolved_targets, resolve_options, source_language_hint,
    target_catalog, translation_paths, ResolvedUiMode, TargetCatalog,
};

fn test_resource(language: &str, entries: Vec<Entry>) -> Resource {
    Resource {
        metadata: Metadata { language: language.to_string(), domain: String::new(), custom: Vec::new() },
        entries,
    }
}

fn entry(id: &str, value: &str, status: EntryStatus) -> Entry {
    Entry { id: id.to_string(), value: Translation::Singular(value.to_string()), comment: None, status }
}

#[test]
fn exact_target_language_wins_over_same_base_variant() {
    let mut codec = Codec::new();
    codec.add_resource(test_resource("pt-BR", Vec::new()));
    codec.add_resource(test_resource("pt-PT", Vec::new()));

    let resolved = resolve_target_languages(&codec, &["pt-PT".to_string()], None, None).unwrap();

    assert_eq!(resolved, vec!["pt-PT".to_string()]);
}

#[test]
fn bare_target_language_reports_ambiguous_variants() {
    let mut codec = Codec::new();
    codec.add_resource(test_resource("fr-FR", Vec::new()));
    codec.add_resource(test_resource("fr-CA", Vec::new()));

    let err = resolve_target_languages(&codec, &["fr".to_string()], None, None).unwrap_err();

    assert!(err.contains("Target language 'fr' is ambiguous"));
    assert!(err.contains("fr-FR"));
    assert!(err.contains("fr-CA"));
    assert!(err.contains("--target-lang"));
}

#[test]
fn bare_target_language_resolves_sole_variant_of_catalog() {
    let mut codec = Codec::new();
    codec.add_resource(test_resource("fr-CA", Vec::new()));

    let resolved = resolve_target_languages(&codec, &["fr".to_string()], None, None).unwrap();

    assert_eq!(resolved, vec!["fr-CA".to_string()]);
}

#[test]
fn bare_source_language_reports_ambiguous_variants() {
    let mut codec = Codec::new();
    codec.add_resource(test_resource("fr-FR", Vec::new()));
    codec.add_resource(test_resource("fr-CA", Vec::new()));

    let err = select_source_resource(&codec, &Some("fr".to_string())).err().unwrap();

    assert!(err.contains("Source language 'fr' is ambiguous"));
    assert!(err.contains("fr-FR"));
    assert!(err.contains("fr-CA"));
    assert!(err.contains("--source-lang"));
}

#[test]
fn fully_qualified_source_does_not_bind_different_variant() {
    let mut codec = Codec::new();
    codec.add_resource(test_resource("pt-BR", Vec::new()));

    let err = select_source_resource(&codec, &Some("pt-PT".to_string())).err().unwrap();

    assert_eq!(err, "Source language 'pt-PT' not found");
}

#[test]
fn existing_target_lookup_uses_normalized_full_tag_identity() {
    let source = test_resource("en", vec![entry("welcome", "Welcome", EntryStatus::Translated)]);
    let mut target_codec = Codec::new();
    target_codec.add_resource(test_resource("fr_CA", vec![entry("welcome", "Bienvenue", EntryStatus::Translated)]));

    let (jobs, summary) = build_jobs(
        &source,
        &target_codec,
        &["FR-ca".to_string()],
        &[EntryStatus::New, EntryStatus::Stale],
        false,
    )
    .unwrap();

    assert!(jobs.is_empty());
    assert_eq!(summary.skipped_status, 1);
}

#[test]
fn missing_target_entry_becomes_a_job() {
    let source = test_resource("en", vec![entry("welcome", "Welcome", EntryStatus::Translated)]);
    let target_codec = Codec::new();

    let (jobs, summary) =
        build_jobs(&source, &target_codec, &["fr".to_string()], &[EntryStatus::New, EntryStatus::Stale], false)
            .unwrap();

    assert_eq!(jobs.len(), 1);
    assert_eq!(jobs[0].key, "welcome");
    assert_eq!(jobs[0].target_lang, "fr");
    assert_eq!(jobs[0].source_value, "Welcome");
    assert_eq!(summary.total_entries, 1);
    assert_eq!(summary.queued, 1);
}

#[test]
fn explicit_target_path_binding_is_order_independent() {
    let resolved = resolve_target_languages(
        &Codec::new(),
        &["zh-Hant".to_string(), "zh-Hans".to_string()],
        Some("zh-Hans"),
        None,
    )
    .unwrap();

    assert_eq!(resolved, vec!["zh-Hant".to_string(), "zh-Hans".to_string()]);
}

/// The payload of a reply text, read as a JSON object with a string member
/// `translation` (enough for the replies below).
fn payload(text: &str) -> Option<ModelTranslationPayload> {
    let v: serde_json::Value = serde_json::from_str(text).ok()?;
    let t = v.get("translation")?.as_str()?;
    Some(ModelTranslationPayload { translation: t.to_string() })
}

/// A reply read as the translate command reads it: the library picks the
/// texts and judges the payloads parsed from them.
fn parse_translation_response(text: &str) -> Result<String, String> {
    let (trimmed, body) = reply_payload_sources(text)?;
    let direct = payload(&trimmed);
    let fenced = match (&direct, &body) {
        (None, Some(b)) => payload(b),
        _ => None,
    };
    read_model_reply(&trimmed, direct, fenced)
}

#[test]
fn parses_fenced_json_translation() {
    let text = "```json\n{\"translation\":\"Bonjour\"}\n```";
    let parsed = parse_translation_response(text).unwrap();
    assert_eq!(parsed, "Bonjour");
}

#[test]
fn reply_sources_are_the_trimmed_reply_and_its_fenced_body() {
    assert_eq!(
        reply_payload_sources("  ```json\n {\"translation\":\"Hi\"} \n```  "),
        Ok(("```json\n {\"translation\":\"Hi\"} \n```".to_string(), Some("{\"translation\":\"Hi\"}".to_string())))
    );
    assert_eq!(
        reply_payload_sources("```\nplain\n```"),
        Ok(("```\nplain\n```".to_string(), Some("plain".to_string())))
    );
    assert_eq!(reply_payload_sources(" Salut "), Ok(("Salut".to_string(), None)));
    assert_eq!(reply_payload_sources("\t\n"), Err("Model returned an empty translation".to_string()));
}

#[test]
fn the_direct_payload_is_read_before_the_fenced_one() {
    let p = |t: &str| Some(ModelTranslationPayload { translation: t.to_string() });
    assert_eq!(read_model_reply("x", p("Un"), p("Deux")), Ok("Un".to_string()));
    assert_eq!(read_model_reply("x", None, p("Deux")), Ok("Deux".to_string()));
    assert_eq!(
        read_model_reply("x", p("  "), p("Deux")),
        Err("Model returned a blank translation value".to_string())
    );
    assert_eq!(
        read_model_reply("not json", None, None),
        Err("Model response was not valid translation JSON: not json".to_string())
    );
}

#[test]
fn rejects_blank_translation_values_in_direct_and_fenced_json() {
    for response in ["{\"translation\":\" \\n\\t \"}", "```json\n{\"translation\":\"   \"}\n```"] {
        let err = parse_translation_response(response).unwrap_err();
        assert!(err.contains("blank translation value"));
    }
}

#[test]
fn non_json_and_empty_replies_are_refused() {
    assert_eq!(
        parse_translation_response("  Bonjour  ").unwrap_err(),
        "Model response was not valid translation JSON: Bonjour"
    );
    assert_eq!(parse_translation_response(" \n ").unwrap_err(), "Model returned an empty translation");
    assert_eq!(parse_translation_response("{\"translation\":\"Salut\"}").unwrap(), "Salut");
}

#[test]
fn build_prompt_includes_comment_context() {
    let prompt = build_prompt(&BackendRequest {
        key: "countdown".to_string(),
        source_lang: "zh-Hans".to_string(),
        target_lang: "fr".to_string(),
        source_value: "代码过期倒计时".to_string(),
        source_comment: Some("A label displayed below the code expiration timer.".to_string()),
    });

    assert!(prompt.contains("Comment:"));
    assert!(prompt.contains("A label displayed below the code expiration timer."));
}

#[test]
fn build_prompt_without_comment_has_no_comment_line() {
    let prompt = build_prompt(&BackendRequest {
        key: "k".to_string(),
        source_lang: "en".to_string(),
        target_lang: "fr".to_string(),
        source_value: "Hello".to_string(),
        source_comment: None,
    });
    assert!(!prompt.contains("Comment:"));
    assert!(prompt.contains("Hello"));
}

#[test]
fn job_id_is_language_then_key() {
    let job = TranslationJob {
        key: "welcome".to_string(),
        source_lang: "en".to_string(),
        target_lang: "fr".to_string(),
        source_value: "Welcome".to_string(),
        source_comment: None,
        existing_comment: None,
    };
    assert_eq!(translation_job_id(&job), "fr:welcome");
}

#[test]
fn inline_value_escapes_line_breaks() {
    assert_eq!(format_inline_value("a\nb"), "a\\nb");
}

#[test]
fn worker_count_is_bounded_by_jobs_and_at_least_one() {
    assert_eq!(worker_count(4, 2), 2);
    assert_eq!(worker_count(2, 10), 2);
    assert_eq!(worker_count(4, 0), 1);
}

#[test]
fn statuses_and_output_status_parse() {
    assert_eq!(parse_status_filter(Some("new, needs-review"), None).unwrap(), vec![
        EntryStatus::New,
        EntryStatus::NeedsReview
    ]);
    assert!(parse_status_filter(Some("bogus"), None).is_err());
    assert_eq!(parse_output_status(None).unwrap(), EntryStatus::NeedsReview);
    assert_eq!(parse_output_status(Some("translated")).unwrap(), EntryStatus::Translated);
    let err = parse_output_status(Some("stale")).unwrap_err();
    assert!(err.contains("needs_review"));
}

#[test]
fn explicit_status_needs_xcstrings_target() {
    assert!(target_supports_explicit_status("a/Localizable.XCSTRINGS"));
    assert!(!target_supports_explicit_status("a/fr.strings"));
    assert_eq!(single_output_language(&["fr".to_string()]), Some("fr"));
    assert_eq!(single_output_language(&["fr".to_string(), "de".to_string()]), None);
}

#[test]
fn run_outcome_refuses_failed_runs() {
    let mut summary = TranslationSummary {
        total_entries: 3,
        queued: 2,
        translated: 2,
        skipped_do_not_translate: 1,
        skipped_plural: 0,
        skipped_status: 0,
        skipped_empty_source: 0,
        failed: 0,
    };
    let out = run_outcome(&summary, &"out.xcstrings".to_string()).unwrap();
    assert_eq!(out.translated, 2);
    assert_eq!(out.skipped, 1);
    assert_eq!(out.output_path.as_deref(), Some("out.xcstrings"));
    summary.failed = 1;
    assert_eq!(
        run_outcome(&summary, &"out.xcstrings".to_string()).unwrap_err(),
        "Translation failed; no files were written"
    );
}

fn base_options() -> TranslateOptions {
    TranslateOptions {
        source: Some("en.strings".to_string()),
        target: None,
        output: None,
        source_lang: Some("en".to_string()),
        target_langs: vec!["fr".to_string()],
        status: None,
        provider: Some("openai".to_string()),
        model: Some("gpt-4.1-mini".to_string()),
        concurrency: Some(2),
        config: None,
        use_tolgee: false,
        tolgee_config: None,
        tolgee_namespaces: Vec::new(),
        dry_run: false,
        strict: false,
        ui_mode: UiMode::Plain,
    }
}

#[test]
fn resolve_options_takes_command_line_values() {
    let opts = base_options();
    let resolved = resolve_options(
        &opts,
        None,
        Ok("openai".to_string()),
        Ok("gpt-4.1-mini".to_string()),
        Ok(ResolvedUiMode::Plain),
    )
    .unwrap();
    assert_eq!(resolved.source, "en.strings");
    assert_eq!(resolved.target_langs, vec!["fr".to_string()]);
    assert_eq!(resolved.concurrency, 2);
    assert_eq!(resolved.output_status, EntryStatus::NeedsReview);
    assert!(!resolved.use_tolgee);
    assert_eq!(resolved.provider.as_deref(), Some("openai"));
}

#[test]
fn resolve_options_uses_config_defaults_when_flags_are_missing() {
    let mut opts = base_options();
    opts.target_langs = Vec::new();
    opts.concurrency = None;
    opts.source_lang = None;
    let mut data = CliConfig::default();
    data.translate.target_lang = Some(vec!["fr,de".to_string()]);
    data.translate.source_lang = Some("en".to_string());
    data.translate.concurrency = Some(3);
    data.tolgee.config = Some(".tolgeerc.json".to_string());
    data.translate.use_tolgee = Some(true);
    let loaded = LoadedConfig { path: "/repo/langcodec.toml".to_string(), data };

    let resolved = resolve_options(
        &opts,
        Some(&loaded),
        Err("no provider".to_string()),
        Err("no model".to_string()),
        Ok(ResolvedUiMode::Plain),
    )
    .unwrap();
    assert_eq!(resolved.target_langs, vec!["fr".to_string(), "de".to_string()]);
    assert_eq!(resolved.source_lang.as_deref(), Some("en"));
    assert_eq!(resolved.concurrency, 3);
    assert!(resolved.use_tolgee);
    assert_eq!(resolved.provider, None);
    assert_eq!(resolved.provider_error.as_deref(), Some("no provider"));
    assert_eq!(resolved.tolgee_config.as_deref(), Some("/repo/.tolgeerc.json"));
}

#[test]
fn resolve_options_errors_in_order() {
    let mut opts = base_options();
    opts.target_langs = Vec::new();
    let err = resolve_options(&opts, None, Ok("p".to_string()), Ok("m".to_string()), Ok(ResolvedUiMode::Tui))
        .unwrap_err();
    assert!(err.starts_with("--target-lang is required"));

    let mut opts = base_options();
    opts.concurrency = Some(0);
    let err = resolve_options(&opts, None, Ok("p".to_string()), Ok("m".to_string()), Ok(ResolvedUiMode::Tui))
        .unwrap_err();
    assert_eq!(err, "Concurrency must be greater than zero");

    let opts = base_options();
    let err = resolve_options(&opts, None, Err("bad provider".to_string()), Ok("m".to_string()), Ok(ResolvedUiMode::Tui))
        .unwrap_err();
    assert_eq!(err, "bad provider");

    let mut opts = base_options();
    opts.source = None;
    let err = resolve_options(&opts, None, Ok("p".to_string()), Ok("m".to_string()), Ok(ResolvedUiMode::Tui))
        .unwrap_err();
    assert_eq!(err, "--source is required");
}

#[test]
fn translation_paths_default_to_source_in_place() {
    let p = translation_paths(&"Localizable.xcstrings".to_string(), &None, &None);
    assert_eq!(p.target, "Localizable.xcstrings");
    assert_eq!(p.output, "Localizable.xcstrings");
    assert!(!p.has_explicit_target);
    assert!(p.target_is_source);
    let p = translation_paths(&"en.strings".to_string(), &None, &Some("fr.strings".to_string()));
    assert_eq!(p.target, "fr.strings");
    assert_eq!(p.output, "fr.strings");
}

#[test]
fn rejects_in_place_single_language_translation_without_target() {
    let p = translation_paths(&"en.strings".to_string(), &None, &None);
    let err = check_path_languages(&p, &FormatType::Strings(None), None, None, 1).unwrap_err();
    assert!(err.contains("Omitting --target is only supported"));
}

#[test]
fn rejects_multiple_target_languages_for_single_language_output() {
    let p = translation_paths(&"en.strings".to_string(), &Some("fr.strings".to_string()), &None);
    let err = check_path_languages(&p, &FormatType::Strings(None), None, None, 2).unwrap_err();
    assert_eq!(err, "Multiple --target-lang values are only supported for multi-language output formats");
}

#[test]
fn rejects_incompatible_qualified_target_and_output_paths() {
    let p = translation_paths(
        &"en.lproj/Localizable.strings".to_string(),
        &Some("pt-BR.lproj/Localizable.strings".to_string()),
        &Some("pt-PT.lproj/Localizable.strings".to_string()),
    );
    let err = check_path_languages(&p, &FormatType::Strings(None), Some("pt-BR"), Some("pt-PT"), 1).unwrap_err();
    assert!(err.contains("Target path"));
    assert!(err.contains("pt-BR"));
    assert!(err.contains("pt-PT"));
    assert!(err.contains("refusing to retag"));
}

#[test]
fn rejects_target_language_incompatible_with_single_language_output_path() {
    let err = check_resolved_targets(
        &vec!["pt-BR".to_string()],
        &FormatType::Strings(None),
        Some("pt-PT"),
        "en",
        "pt-PT.lproj/Localizable.strings",
    )
    .unwrap_err();
    assert!(err.contains("Target language 'pt-BR'"));
    assert!(err.contains("pt-PT"));
    assert!(err.contains("matching output locale"));
}

#[test]
fn source_and_target_language_must_differ() {
    let err =
        check_resolved_targets(&vec!["de".to_string(), "EN".to_string()], &FormatType::Xcstrings, None, "en", "x")
            .unwrap_err();
    assert_eq!(err, "Source language 'en' and target language 'EN' must differ");
    assert!(check_resolved_targets(&vec!["zh-Hant".to_string()], &FormatType::Xcstrings, None, "zh-Hans", "x").is_ok());
}

#[test]
fn output_format_must_be_known_and_not_stringsdict() {
    let err = check_output_format("out.bin", &None, &None, &None).unwrap_err();
    assert_eq!(err, "Cannot infer output format from path: out.bin");
    let err = check_output_format(
        "out.xcstrings",
        &Some(FormatType::Stringsdict(None)),
        &None,
        &Some(FormatType::Xcstrings),
    )
    .unwrap_err();
    assert!(err.starts_with(".stringsdict is not supported by `translate`"));
    assert!(check_output_format("out.xcstrings", &None, &None, &Some(FormatType::Xcstrings)).is_ok());
}

#[test]
fn target_catalog_and_source_hint_choices() {
    let in_place = translation_paths(&"L.xcstrings".to_string(), &None, &None);
    assert_eq!(target_catalog(&in_place, true, &FormatType::Xcstrings), TargetCatalog::CopySource);
    let output_only = translation_paths(&"en.strings".to_string(), &None, &Some("fr.strings".to_string()));
    assert_eq!(target_catalog(&output_only, false, &FormatType::Strings(None)), TargetCatalog::Fresh);
    let distinct = translation_paths(&"en.strings".to_string(), &Some("fr.strings".to_string()), &None);
    assert_eq!(target_catalog(&distinct, true, &FormatType::Strings(None)), TargetCatalog::ReadExisting);

    let hint = source_language_hint(&Some(FormatType::Strings(None)), &None, &None, &Some("en".to_string()));
    assert_eq!(hint.as_deref(), Some("en"));
    let hint = source_language_hint(&Some(FormatType::Strings(None)), &Some("de".to_string()), &None, &Some("en".to_string()));
    assert_eq!(hint, None);
    let hint = source_language_hint(&Some(FormatType::Xcstrings), &None, &None, &Some("en".to_string()));
    assert_eq!(hint, None);
}

use langcodec_cli::translate_options::{
    plan_output_serialization, preamble, preflight_failure, translate_engine_label, translate_metadata_rows,
    SerializationTarget,
};

#[test]
fn engine_label_metadata_and_preamble() {
    let opts = resolve_options(&base_options(), None, Ok("OpenAI".to_string()), Ok("gpt-4.1-mini".to_string()), Ok(ResolvedUiMode::Plain)).unwrap();
    assert_eq!(translate_engine_label(&opts), "OpenAI:gpt-4.1-mini");
    let mut tolgee_only = opts.clone();
    tolgee_only.use_tolgee = true;
    tolgee_only.provider = None;
    assert_eq!(translate_engine_label(&tolgee_only), "tolgee");
    let mut both = opts.clone();
    both.use_tolgee = true;
    assert_eq!(translate_engine_label(&both), "tolgee + OpenAI:gpt-4.1-mini");
    let mut none = opts.clone();
    none.provider = None;
    assert_eq!(translate_engine_label(&none), "unconfigured");

    let rows = translate_metadata_rows(&opts, &"en.strings".to_string(), &"fr.strings".to_string(), &"fr.strings".to_string(), &None);
    let labels: Vec<&str> = rows.iter().map(|r| r.label.as_str()).collect();
    assert_eq!(labels, vec!["Provider", "Source", "Target", "Output", "Concurrency"]);
    assert_eq!(rows[4].value, "2");

    let lines = preamble("en", &opts, "en.strings", "fr.strings", &Some("langcodec.toml".to_string()));
    assert_eq!(
        lines,
        vec![
            "Translating en -> fr using OpenAI:gpt-4.1-mini".to_string(),
            "Source: en.strings".to_string(),
            "Target: fr.strings".to_string(),
            "Config: langcodec.toml".to_string(),
        ]
    );
}

#[test]
fn output_serialization_preflight() {
    let mut codec = Codec::new();
    codec.add_resource(test_resource("en", Vec::new()));
    codec.add_resource(test_resource("fr_CA", Vec::new()));
    assert_eq!(
        plan_output_serialization(&codec, &FormatType::Strings(None), "out.strings", Some("fr-CA")).unwrap(),
        SerializationTarget::OneResource(1)
    );
    assert_eq!(
        plan_output_serialization(&codec, &FormatType::Strings(None), "out.strings", None).unwrap_err(),
        "Single-language outputs require exactly one target language (out.strings)"
    );
    assert_eq!(
        plan_output_serialization(&codec, &FormatType::AndroidStrings(None), "strings.xml", Some("de")).unwrap_err(),
        "Target language 'de' not found in output (strings.xml)"
    );
    assert_eq!(
        plan_output_serialization(&codec, &FormatType::CSV, "out.csv", None).unwrap(),
        SerializationTarget::AllResources
    );
    assert!(plan_output_serialization(&codec, &FormatType::Xliff(None), "o.xliff", None).unwrap_err().ends_with("(o.xliff)"));
    assert_eq!(preflight_failure("bad"), "Preflight output validation failed: bad");
}

#[test]
fn plain_summary_and_result_lines() {
    let summary = TranslationSummary {
        total_entries: 4,
        queued: 2,
        translated: 1,
        skipped_do_not_translate: 1,
        skipped_plural: 1,
        skipped_status: 0,
        skipped_empty_source: 0,
        failed: 1,
    };
    assert_eq!(
        summary_lines(&summary),
        vec![
            "Total candidate translations: 4",
            "Queued for translation: 2",
            "Translated: 1",
            "Skipped (plural): 1",
            "Skipped (do_not_translate): 1",
            "Skipped (status): 0",
            "Skipped (empty source): 0",
            "Failed: 1",
        ]
    );

    let job = |key: &str, lang: &str, value: &str| TranslationJob {
        key: key.to_string(),
        source_lang: "en".to_string(),
        target_lang: lang.to_string(),
        source_value: value.to_string(),
        source_comment: None,
        existing_comment: None,
    };
    let jobs = vec![job("a", "fr", "Line\none"), job("b", "fr", "Two"), job("a", "de", "Line\none")];
    let results = vec![
        TranslationResult { key: "a".to_string(), target_lang: "de".to_string(), translated_value: "Zeile\teins".to_string() },
        TranslationResult { key: "a".to_string(), target_lang: "fr".to_string(), translated_value: "Ligne".to_string() },
    ];
    assert_eq!(
        translation_result_lines(&jobs, &results),
        vec![
            "Translation results:".to_string(),
            "fr\ta\tLine\\none => Ligne".to_string(),
            "de\ta\tLine\\none => Zeile\\teins".to_string(),
        ]
    );
    assert!(translation_result_lines(&jobs, &[]).is_empty());
}

#[test]
fn a_failed_job_or_a_dry_run_writes_nothing() {
    let summary = |translated: usize, failed: usize| TranslationSummary {
        total_entries: 3,
        queued: 3,
        translated,
        skipped_do_not_translate: 0,
        skipped_plural: 0,
        skipped_status: 0,
        skipped_empty_source: 0,
        failed,
    };
    assert_eq!(plan_finish(&summary(2, 1), false, true), FinishStep::Refuse);
    assert_eq!(plan_finish(&summary(2, 1), true, false), FinishStep::Refuse);
    assert_eq!(plan_finish(&summary(3, 0), true, true), FinishStep::DryRun);
    assert_eq!(plan_finish(&summary(3, 0), false, true), FinishStep::Write(true));
    assert_eq!(plan_finish(&summary(3, 0), false, false), FinishStep::Write(false));
    assert_eq!(plan_finish(&summary(0, 0), false, true), FinishStep::Write(false));
}

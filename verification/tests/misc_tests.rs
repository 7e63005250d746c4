use langcodec_cli::validation::{context_after_answers, ContextCheck, FileAnswers, ValidationContext};
use langcodec_cli::convert::{plan_input_read, InputRead};
use langcodec_cli::formats::{check_named_format_content, CustomFormat};
use langcodec_cli::convert::{plan_refusal_message, ConversionPlan, ConvertOptions};
use langcodec_cli::convert::{conversion_error_lines, reader_language_hint, FormatType};
use langcodec_cli::diff::{render_plain, translation_as_text, ChangedItem, DiffReport, DiffSummary, LanguageDiff};
use langcodec_cli::editor::App;
use langcodec_cli::editor_view::{has_complex_scripts, needs_full_clear};
use langcodec_cli::input_kind::{
    check_strict_status_filter, input_supports_explicit_status_metadata, is_custom_input_extension,
    readonly_load_step, ReadonlyStep,
};
use langcodec_cli::langid::language_identity_eq;
use langcodec_cli::model::{Codec, Entry, EntryStatus, Metadata, Plural, PluralCategory, Resource, Translation};
use langcodec_cli::normalize::{
    has_distinct_output_path, keep_expanded_input, normalize_summary, normalize_write_plan, parse_key_style,
    plan_normalize_step, reject_xliff_normalize_paths, KeyStyle, NormalizeWrite,
};
use langcodec_cli::sync::{
    lang_base, lang_matches, normalize_lang, sync_policy_check, sync_report_lines, SyncCounts, SyncOptions,
};

#[test]
fn key_styles_parse_trimmed_and_in_any_case() {
    assert_eq!(parse_key_style(" Snake ").unwrap(), KeyStyle::Snake);
    assert_eq!(parse_key_style("none").unwrap(), KeyStyle::Keep);
    assert_eq!(parse_key_style("KEBAB").unwrap(), KeyStyle::Kebab);
    assert_eq!(parse_key_style("camel").unwrap(), KeyStyle::Camel);
    assert_eq!(
        parse_key_style(" Pascal ").unwrap_err(),
        "Invalid --key-style 'pascal'. Expected one of: none, snake, kebab, camel"
    );
}

#[test]
fn normalize_refuses_stringsdict_before_xliff() {
    let err = reject_xliff_normalize_paths("a.xliff", Some(&"b.stringsdict".to_string())).unwrap_err();
    assert!(err.starts_with(".stringsdict is not supported by `normalize`"));
    let err = reject_xliff_normalize_paths("a.xliff", None).unwrap_err();
    assert!(err.starts_with(".xliff is not supported by `normalize`"));
    assert!(reject_xliff_normalize_paths("a.strings", None).is_ok());
    assert_eq!(normalize_write_plan(&FormatType::TSV).unwrap(), NormalizeWrite::AllResources);
    assert_eq!(normalize_write_plan(&FormatType::AndroidStrings(None)).unwrap(), NormalizeWrite::SingleResource);
    assert!(normalize_write_plan(&FormatType::Stringsdict(None)).is_err());
}

#[test]
fn normalize_check_and_dry_run_never_write() {
    let step = plan_normalize_step("a.strings", &None, true, true, false);
    assert!(!step.write);
    assert_eq!(step.lines, vec!["would change: a.strings".to_string()]);
    assert_eq!(step.outcome, Err("would change: a.strings".to_string()));

    let step = plan_normalize_step("a.strings", &None, false, true, false);
    assert!(!step.write);
    assert_eq!(step.outcome, Ok(false));

    let step = plan_normalize_step("a.strings", &None, true, false, true);
    assert!(!step.write);
    assert_eq!(step.lines, vec!["DRY-RUN: would change a.strings".to_string()]);
    assert_eq!(step.outcome, Ok(true));
}

#[test]
fn normalize_writes_changed_files_and_copies_to_distinct_outputs() {
    let step = plan_normalize_step("a.strings", &None, true, false, false);
    assert!(step.write);
    assert_eq!(step.lines, vec!["✅ Normalized: a.strings".to_string()]);

    let step = plan_normalize_step("a.strings", &Some("b.strings".to_string()), false, false, false);
    assert!(step.write);
    assert_eq!(
        step.lines,
        vec!["No changes needed: a.strings".to_string(), "✅ Wrote output: b.strings".to_string()]
    );

    let step = plan_normalize_step("a.strings", &Some("a.strings".to_string()), false, false, false);
    assert!(!step.write);
    assert!(!has_distinct_output_path("dir/a.strings", &Some("dir//a.strings".to_string())));
    assert!(has_distinct_output_path("a.strings", &Some("b.strings".to_string())));
    assert!(!has_distinct_output_path("a.strings", &None));
}

#[test]
fn normalize_summary_and_expansion_filter() {
    assert_eq!(normalize_summary(4, 3, 1, 2), "Summary: processed 4; success: 3; failed: 1; changed: 2");
    assert!(keep_expanded_input("a.strings", false));
    assert!(!keep_expanded_input("a/*.strings", false));
    assert!(keep_expanded_input("a/*.strings", true));
}

#[test]
fn language_identity_ignores_case_and_separator_but_keeps_variants() {
    assert!(language_identity_eq("en_US", "en-US"));
    assert!(language_identity_eq("FR-ca", "fr_CA"));
    assert!(language_identity_eq(" de ", "de"));
    assert!(!language_identity_eq("zh-Hans", "zh-Hant"));
    assert!(!language_identity_eq("pt-BR", "pt-PT"));
    assert!(language_identity_eq("ZH-HANS-TW", "zh-hans-tw"));
    assert!(language_identity_eq("not a tag", "NOT A TAG"));
}

#[test]
fn diff_values_and_plain_report() {
    assert_eq!(translation_as_text(&Translation::Empty), "");
    let plural = Translation::Plural(Plural {
        id: "files".to_string(),
        forms: vec![(PluralCategory::One, "1 file".to_string()), (PluralCategory::Other, "%d files".to_string())],
    });
    assert_eq!(translation_as_text(&plural), "One=1 file | Other=%d files");

    let report = DiffReport {
        summary: DiffSummary { languages: 1, added: 1, removed: 0, changed: 1, unchanged: 2 },
        languages: vec![LanguageDiff {
            language: "fr".to_string(),
            added: vec!["new".to_string()],
            removed: Vec::new(),
            changed: vec![ChangedItem {
                key: "hello".to_string(),
                source: Translation::Singular("Salut".to_string()),
                target: Translation::Singular("Bonjour".to_string()),
            }],
            unchanged: 2,
        }],
    };
    assert_eq!(
        render_plain(&report),
        "=== Diff ===\nLanguages: 1\nTotals: added=1, removed=0, changed=1, unchanged=2\n\nLanguage: fr\n  added: 1\n  removed: 0\n  changed: 1\n  unchanged: 2\n  added keys: new\n  changed keys: hello ('Bonjour' -> 'Salut')"
    );
}

#[test]
fn input_kinds_of_readonly_commands() {
    assert!(is_custom_input_extension("a.json"));
    assert!(is_custom_input_extension("a.langcodec"));
    assert!(!is_custom_input_extension("a.strings"));
    assert!(input_supports_explicit_status_metadata("dir/Localizable.XCStrings"));
    assert!(!input_supports_explicit_status_metadata("dir/xcstrings"));
    assert_eq!(readonly_load_step(true, "a.yaml", false), ReadonlyStep::ReadCustom);
    assert_eq!(readonly_load_step(true, "a.csv", false), ReadonlyStep::Done);
    assert_eq!(readonly_load_step(false, "a.csv", true), ReadonlyStep::Done);
    assert_eq!(readonly_load_step(false, "a.yml", false), ReadonlyStep::ReadCustom);
    assert_eq!(readonly_load_step(false, "a.csv", false), ReadonlyStep::Unsupported);
    assert_eq!(
        check_strict_status_filter(true, &Some("new".to_string()), "a.strings").unwrap_err(),
        "Strict mode with --status requires explicit status metadata. Supported in v1: .xcstrings"
    );
    assert!(check_strict_status_filter(true, &Some("new".to_string()), "a.xcstrings").is_ok());
    assert!(check_strict_status_filter(false, &Some("new".to_string()), "a.strings").is_ok());
}

fn counts() -> SyncCounts {
    SyncCounts {
        processed_languages: 1,
        total_entries: 5,
        updated: 2,
        unchanged: 1,
        fallback_matches: 1,
        skipped_unmatched: 1,
        skipped_missing_language: 0,
        skipped_ambiguous_fallback: 1,
        skipped_type_mismatch: 0,
    }
}

fn sync_options(strict: bool) -> SyncOptions {
    SyncOptions {
        source: "en.strings".to_string(),
        target: "fr.strings".to_string(),
        output: None,
        lang: None,
        match_lang: None,
        report_json: None,
        fail_on_unmatched: false,
        fail_on_ambiguous: false,
        strict,
        dry_run: false,
    }
}

#[test]
fn sync_languages_and_policy() {
    assert_eq!(normalize_lang(" EN_us "), "en-us");
    assert_eq!(lang_base("en-US"), "en");
    assert!(lang_matches("en_US", "en"));
    assert!(!lang_matches("fr", "en"));
    assert!(sync_policy_check(&sync_options(false), &counts()).is_ok());
    assert_eq!(
        sync_policy_check(&sync_options(true), &counts()).unwrap_err(),
        "Sync policy failure (unmatched=1, ambiguous=1)"
    );
    let lines = sync_report_lines("en", &counts());
    assert_eq!(lines[0], "Sync match language: en");
    assert_eq!(lines[5], "Skipped (unmatched): 1");
    assert_eq!(lines.len(), 9);
}

fn resource(language: &str, entries: Vec<Entry>) -> Resource {
    Resource {
        metadata: Metadata { language: language.to_string(), domain: String::new(), custom: Vec::new() },
        entries,
    }
}

#[test]
fn browser_clears_only_around_complex_script_keys() {
    assert!(has_complex_scripts("مرحبا"));
    assert!(has_complex_scripts("नमस्ते"));
    assert!(!has_complex_scripts("hello"));
    assert!(!has_complex_scripts("\u{0D85}"));
    let entry = |id: &str, v: &str| Entry {
        id: id.to_string(),
        value: Translation::Singular(v.to_string()),
        comment: None,
        status: EntryStatus::Translated,
    };
    let codec = Codec {
        resources: vec![
            resource("en", vec![entry("a", "Hello"), entry("b", "Bye")]),
            resource("ar", vec![entry("a", "مرحبا"), entry("b", "Bye")]),
        ],
    };
    let app = App::new(codec, "x.xcstrings".to_string(), FormatType::Xcstrings);
    let ia = app.filtered_keys.iter().position(|k| k == "a");
    let ib = app.filtered_keys.iter().position(|k| k == "b");
    assert!(needs_full_clear(&app, ib, ia));
    assert!(!needs_full_clear(&app, ia, ia));
    assert!(!needs_full_clear(&app, ib, None));
}

#[test]
fn committing_then_undoing_restores_the_translation() {
    let entry = |id: &str, v: &str| Entry {
        id: id.to_string(),
        value: Translation::Singular(v.to_string()),
        comment: None,
        status: EntryStatus::Translated,
    };
    let codec = Codec { resources: vec![resource("en", vec![entry("greeting", "Hello")])] };
    let mut app = App::new(codec, "en.strings".to_string(), FormatType::Strings(None));
    let key = app.selected_key().unwrap().to_string();
    let lang = app.selected_language().unwrap().to_string();
    app.enter_edit_mode();
    app.edit_insert('!');
    app.commit_edit();
    assert_eq!(app.get_translation(&key, &lang).as_deref(), Some("Hello!"));
    app.undo();
    assert_eq!(app.get_translation(&key, &lang).as_deref(), Some("Hello"));
}

#[test]
fn reader_hint_is_trimmed_and_only_for_single_language_formats() {
    let hint = "  fr ".to_string();
    assert_eq!(reader_language_hint(&FormatType::Strings(None), Some(&hint)), Ok(Some("fr".to_string())));
    assert_eq!(reader_language_hint(&FormatType::Xcstrings, Some(&hint)), Ok(None));
    assert_eq!(reader_language_hint(&FormatType::AndroidStrings(None), None), Ok(None));
    let blank = "   ".to_string();
    assert_eq!(
        reader_language_hint(&FormatType::Stringsdict(None), Some(&blank)),
        Err("--source-language cannot be empty when used as an input language hint".to_string())
    );
}

#[test]
fn conversion_error_lists_tried_strategies_and_formats() {
    let lines = conversion_error_lines("data.yml", "out.strings");
    assert_eq!(lines[0], "Error: Could not convert 'data.yml' to 'out.strings'");
    assert_eq!(lines[3], "1. Standard format detection from file extensions");
    assert_eq!(lines[4], "2. Custom YAML format conversion");
    assert_eq!(lines[6], "Supported input formats:");
    assert_eq!(
        lines.last().unwrap(),
        "Custom formats: json-language-map, json-array-language-map, yaml-language-map, langcodec-resource-array"
    );
    let plain = conversion_error_lines("a.txt", "b.xml");
    assert_eq!(plain.len(), lines.len() - 1);
    assert_eq!(plain[4], "");
}

#[test]
fn backspace_after_insert_restores_buffer_and_cursor() {
    let entry = Entry {
        id: "greeting".to_string(),
        value: Translation::Singular("Hé".to_string()),
        comment: None,
        status: EntryStatus::Translated,
    };
    let codec = Codec { resources: vec![resource("en", vec![entry])] };
    let mut app = App::new(codec, "en.strings".to_string(), FormatType::Strings(None));
    app.enter_edit_mode();
    app.cursor_move_left();
    let buffer = app.edit_buffer.clone();
    let cursor = app.cursor_pos;
    app.edit_insert('ß');
    assert_eq!(app.edit_buffer, "Hßé");
    app.edit_backspace();
    assert_eq!(app.edit_buffer, buffer);
    assert_eq!(app.cursor_pos, cursor);
}

#[test]
fn custom_file_extension_is_lowercased_as_unicode() {
    assert_eq!(
        langcodec_cli::validation::validate_custom_format_file("x.Ä"),
        Err("Unsupported file extension for custom format: ä. Expected: json, yaml, yml, langcodec".to_string())
    );
    assert_eq!(
        langcodec_cli::validation::validate_custom_format_file("missing-dir/x.JSON"),
        Err("File does not exist: missing-dir/x.JSON".to_string())
    );
}

#[test]
fn explicit_custom_format_is_authoritative_over_the_extension() {
    let hint = "json-language-map".to_string();
    let inferred = Some(FormatType::Stringsdict(None));
    for strict in [false, true] {
        match plan_input_read("Localizable.stringsdict", Some(&hint), strict, &inferred) {
            Ok(InputRead::NamedCustom(CustomFormat::JSONLanguageMap)) => {}
            _ => panic!("the explicit custom format must be read as such"),
        }
    }
    let err = check_named_format_content(CustomFormat::JSONLanguageMap, "<?xml version=\"1.0\"?><plist/>").unwrap_err();
    assert!(err.starts_with("Error parsing JSON: "), "{err}");
    assert!(check_named_format_content(CustomFormat::JSONLanguageMap, "{\"key\": \"a\"}").is_ok());
    let unknown = "nope".to_string();
    assert!(plan_input_read("a.json", Some(&unknown), false, &None).is_err());
    match plan_input_read("a.strings", None, false, &Some(FormatType::Strings(None))) {
        Ok(InputRead::Standard(FormatType::Strings(None), false)) => {}
        _ => panic!("an inferred standard format is read with it"),
    }
    match plan_input_read("a.json", None, true, &None) {
        Ok(InputRead::DetectCustom) => {}
        _ => panic!("a custom-format path is detected from its content"),
    }
    assert_eq!(
        plan_input_read("a.txt", None, false, &None).err(),
        Some("Unsupported input format or file extension: 'a.txt'. Supported formats: .strings, .stringsdict, .xml, .xcstrings, .xliff, .csv, .tsv, .json, .yaml, .yml, .langcodec".to_string())
    );
}

#[test]
fn refused_conversions_name_the_remedy() {
    let options = ConvertOptions {
        input_format: None,
        output_format: None,
        source_language: None,
        version: None,
        output_lang: Some("fr".to_string()),
        exclude_lang: vec![],
        include_lang: vec![],
    };
    assert_eq!(
        plan_refusal_message(ConversionPlan::RejectStringsdictWithoutLanguage, "Localizable.stringsdict", &options),
        Some("Could not infer the input language for 'Localizable.stringsdict'. Pass --source-language <LANG> or place the .stringsdict file under a <LANG>.lproj directory.".to_string())
    );
    assert_eq!(
        plan_refusal_message(ConversionPlan::RejectLangcodecOutputLanguage, "a.xcstrings", &options),
        Some("--output-lang 'fr' is not supported for .langcodec output. Use --include-lang instead.".to_string())
    );
    assert_eq!(plan_refusal_message(ConversionPlan::Xcstrings, "a.strings", &options), None);
}

#[test]
fn context_checks_report_the_first_failing_input_file() {
    let ok = FileAnswers { exists: true, is_file: true, readable: true };
    let missing = FileAnswers { exists: false, is_file: false, readable: false };
    let dir = FileAnswers { exists: true, is_file: false, readable: false };
    let context = ValidationContext::new()
        .with_input_file("a.strings".to_string())
        .with_input_file("b.strings".to_string())
        .with_input_file("c.strings".to_string());
    match context_after_answers(&context, &vec![ok, missing, dir], true) {
        ContextCheck::Done(Err(e)) => {
            assert_eq!(e, "Input file 2 validation failed: File does not exist: b.strings")
        }
        _ => panic!("the second file is reported"),
    }
    match context_after_answers(&context, &vec![ok, ok, dir], true) {
        ContextCheck::Done(Err(e)) => {
            assert_eq!(e, "Input file 3 validation failed: Path is not a file: c.strings")
        }
        _ => panic!("the third file is reported"),
    }
    let unreadable = FileAnswers { exists: true, is_file: true, readable: false };
    match context_after_answers(&context, &vec![unreadable, ok, ok], true) {
        ContextCheck::Done(Err(e)) => {
            assert_eq!(e, "Input file 1 validation failed: Cannot read file: a.strings")
        }
        _ => panic!("the first file is reported"),
    }
    match context_after_answers(&context, &vec![ok, ok, ok], true) {
        ContextCheck::Done(Ok(())) => {}
        _ => panic!("every check passes"),
    }
    let with_output = ValidationContext::new()
        .with_input_file("a.strings".to_string())
        .with_output_file("out/dir/b.xcstrings".to_string())
        .with_language_code("fr".to_string());
    match context_after_answers(&with_output, &vec![ok], false) {
        ContextCheck::CreateOutputDirectory(d) => assert_eq!(d, "out/dir"),
        _ => panic!("the missing directory is to be created"),
    }
    match context_after_answers(&with_output, &vec![missing], false) {
        ContextCheck::Done(Err(e)) => {
            assert_eq!(e, "Input file 1 validation failed: File does not exist: a.strings")
        }
        _ => panic!("the input file fails before the output is looked at"),
    }
    let bad_lang = with_output.with_language_code("not a language".to_string());
    match context_after_answers(&bad_lang, &vec![ok], true) {
        ContextCheck::Done(Err(e)) => assert!(e.starts_with("Language code validation failed: ")),
        _ => panic!("the language code is checked last"),
    }
}

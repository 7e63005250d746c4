use langcodec_cli::edit::{record_edit_file, record_missing_input, EditNext, EditTally};
use langcodec_cli::convert::FormatType;
use langcodec_cli::edit::{
    apply_set, check_edit_inputs, edit_read_failure, edit_summary, edit_write_plan, finish_edit_run, parse_status_opt,
    pick_single_resource, reject_unsafe_edit_paths, shown_text, EditWrite, Tone,
};
use langcodec_cli::model::{Codec, Entry, EntryStatus, Metadata, Plural, PluralCategory, Resource, Translation};

fn resource(language: &str, entries: Vec<Entry>) -> Resource {
    Resource {
        metadata: Metadata { language: language.to_string(), domain: String::new(), custom: Vec::new() },
        entries,
    }
}

fn singular(id: &str, value: &str) -> Entry {
    Entry { id: id.to_string(), value: Translation::Singular(value.to_string()), comment: None, status: EntryStatus::New }
}

fn text_of(codec: &Codec, key: &str, lang: &str) -> Option<String> {
    match codec.find_entry(key, lang).map(|e| &e.value) {
        Some(Translation::Singular(s)) => Some(s.clone()),
        _ => None,
    }
}

fn some(s: &str) -> Option<String> {
    Some(s.to_string())
}

#[test]
fn set_updates_an_existing_key_with_comment_and_status() {
    let mut codec = Codec { resources: vec![resource("en", vec![singular("hello", "Hello")])] };
    let (tone, msg) = apply_set(
        &mut codec,
        "en.strings",
        &some("en"),
        "hello",
        &some("Hi"),
        &some("Greeting"),
        &some("needs-review"),
        false,
    )
    .unwrap();
    assert_eq!(tone, Tone::Success);
    assert_eq!(msg, "Updated 'hello' in en (en.strings)");
    let e = codec.find_entry("hello", "en").unwrap();
    assert_eq!(text_of(&codec, "hello", "en").as_deref(), Some("Hi"));
    assert_eq!(e.comment.as_deref(), Some("Greeting"));
    assert_eq!(e.status, EntryStatus::NeedsReview);
}

#[test]
fn set_adds_a_missing_key_and_then_reads_it_back() {
    let mut codec = Codec { resources: vec![resource("en", vec![singular("hello", "Hello")])] };
    let (tone, msg) =
        apply_set(&mut codec, "a.xcstrings", &some("fr"), "hello", &some("Bonjour"), &None, &None, false).unwrap();
    assert_eq!(tone, Tone::Success);
    assert_eq!(msg, "Added 'hello' to fr (a.xcstrings)");
    assert_eq!(text_of(&codec, "hello", "fr").as_deref(), Some("Bonjour"));
    assert_eq!(codec.find_entry("hello", "fr").unwrap().status, EntryStatus::Translated);
}

#[test]
fn set_without_language_uses_the_only_resource() {
    let mut codec = Codec { resources: vec![resource("de", vec![singular("k", "alt")])] };
    let (_, msg) = apply_set(&mut codec, "de.strings", &None, "k", &some("neu"), &None, &None, false).unwrap();
    assert_eq!(msg, "Updated 'k' in de (de.strings)");
    assert_eq!(text_of(&codec, "k", "de").as_deref(), Some("neu"));
}

#[test]
fn set_without_language_on_multi_language_file_is_refused() {
    let mut codec = Codec { resources: vec![resource("en", Vec::new()), resource("fr", Vec::new())] };
    let err = apply_set(&mut codec, "a.csv", &None, "k", &some("v"), &None, &None, false).unwrap_err();
    assert_eq!(err, "--lang is required for set on multi-language files (a.csv)");
}

#[test]
fn dry_runs_change_nothing() {
    let mut codec = Codec { resources: vec![resource("en", vec![singular("hello", "Hello")])] };
    let (tone, msg) =
        apply_set(&mut codec, "en.strings", &some("en"), "hello", &some("Hi"), &None, &None, true).unwrap();
    assert_eq!(tone, Tone::Warning);
    assert_eq!(msg, "DRY-RUN: Would update 'hello' in en: 'Hello' -> 'Hi' (en.strings)");
    let (_, msg) = apply_set(&mut codec, "en.strings", &some("en"), "new", &some("N"), &None, &None, true).unwrap();
    assert_eq!(msg, "DRY-RUN: Would add 'new' to en with value 'N' (en.strings)");
    let (_, msg) = apply_set(&mut codec, "en.strings", &some("en"), "hello", &None, &None, &None, true).unwrap();
    assert_eq!(msg, "DRY-RUN: Would remove 'hello' from en (en.strings)");
    let (_, msg) = apply_set(&mut codec, "en.strings", &None, "hello", &some(""), &None, &None, true).unwrap();
    assert_eq!(msg, "DRY-RUN: Would remove 'hello' (en.strings)");
    assert_eq!(text_of(&codec, "hello", "en").as_deref(), Some("Hello"));
    assert!(codec.find_entry("new", "en").is_none());
}

#[test]
fn removal_with_language_and_without() {
    let mut codec = Codec { resources: vec![resource("en", vec![singular("a", "A"), singular("b", "B")])] };
    let (tone, msg) = apply_set(&mut codec, "en.strings", &some("en"), "a", &None, &None, &None, false).unwrap();
    assert_eq!((tone, msg.as_str()), (Tone::Success, "Removed 'a' from en (en.strings)"));
    assert!(codec.find_entry("a", "en").is_none());
    let (tone, msg) = apply_set(&mut codec, "en.strings", &some("en"), "a", &None, &None, &None, false).unwrap();
    assert_eq!((tone, msg.as_str()), (Tone::Info, "Key 'a' not found in en (en.strings); nothing to remove"));

    let mut dup = Codec { resources: vec![resource("en", vec![singular("x", "1"), singular("y", "2"), singular("x", "3")])] };
    let (_, msg) = apply_set(&mut dup, "en.strings", &None, "x", &some(""), &None, &None, false).unwrap();
    assert_eq!(msg, "Removed 'x' (en.strings)");
    assert_eq!(dup.resources[0].entries.len(), 1);
    assert_eq!(dup.resources[0].entries[0].id, "y");
    let (tone, msg) = apply_set(&mut dup, "en.strings", &None, "x", &None, &None, &None, false).unwrap();
    assert_eq!((tone, msg.as_str()), (Tone::Info, "Key 'x' not present (en.strings); nothing to remove"));
}

#[test]
fn removal_without_language_on_multi_language_file_is_refused() {
    let mut codec = Codec { resources: vec![resource("en", Vec::new()), resource("fr", Vec::new())] };
    let err = apply_set(&mut codec, "a.csv", &None, "k", &None, &None, &None, false).unwrap_err();
    assert_eq!(err, "Multiple languages present; specify --lang");
}

#[test]
fn unknown_status_is_refused_before_any_change() {
    let mut codec = Codec { resources: vec![resource("en", vec![singular("a", "A")])] };
    assert!(apply_set(&mut codec, "en.strings", &some("en"), "a", &some("B"), &None, &some("bogus"), false).is_err());
    assert_eq!(text_of(&codec, "a", "en").as_deref(), Some("A"));
    assert_eq!(parse_status_opt(&some("do not translate")).unwrap(), Some(EntryStatus::DoNotTranslate));
    assert_eq!(parse_status_opt(&None).unwrap(), None);
}

#[test]
fn unsafe_edit_paths_are_refused() {
    assert!(reject_unsafe_edit_paths("a.xliff", None).unwrap_err().starts_with(".xliff is not supported by `edit`"));
    assert!(reject_unsafe_edit_paths("a.strings", Some(&"b.xliff".to_string()))
        .unwrap_err()
        .starts_with(".xliff is not supported as an `edit` output"));
    assert!(reject_unsafe_edit_paths("a.stringsdict", None).unwrap_err().starts_with(".stringsdict"));
    assert!(reject_unsafe_edit_paths("a.strings", Some(&"b.xml".to_string())).is_ok());
}

#[test]
fn write_plan_follows_the_output_format() {
    assert_eq!(edit_write_plan(&FormatType::Strings(None)).unwrap(), EditWrite::SingleResource);
    assert_eq!(edit_write_plan(&FormatType::CSV).unwrap(), EditWrite::AllResources);
    assert!(edit_write_plan(&FormatType::Xliff(None)).is_err());
    let codec = Codec { resources: vec![resource("en", Vec::new()), resource("fr", Vec::new())] };
    assert_eq!(pick_single_resource(&codec, &some("fr")).unwrap().metadata.language, "fr");
    assert_eq!(pick_single_resource(&codec, &some("de")).err().unwrap(), "Language 'de' not found in input");
    assert_eq!(pick_single_resource(&codec, &None).err().unwrap(), "Multiple languages present; specify --lang");
}

#[test]
fn run_tally_messages() {
    assert_eq!(check_edit_inputs(&Vec::new(), &None).unwrap_err(), "No input files matched the provided patterns");
    assert_eq!(
        check_edit_inputs(&vec!["a".to_string(), "b".to_string()], &some("o")).unwrap_err(),
        "--output cannot be used with multiple input files"
    );
    assert!(check_edit_inputs(&vec!["a".to_string()], &some("o")).is_ok());
    assert_eq!(edit_summary(3, 2, 1), (Tone::Warning, "Summary: processed 3; success: 2; failed: 1".to_string()));
    assert_eq!(edit_summary(1, 1, 0).0, Tone::Success);
    assert_eq!(finish_edit_run(2).unwrap_err(), "2 file(s) failed. See errors above.");
    assert!(finish_edit_run(0).is_ok());
}

#[test]
fn shown_text_of_each_value_kind() {
    assert_eq!(shown_text(&Translation::Empty), "");
    assert_eq!(shown_text(&Translation::Singular("s".to_string())), "s");
    let p = Translation::Plural(Plural { id: "pid".to_string(), forms: vec![(PluralCategory::One, "one".to_string())] });
    assert_eq!(shown_text(&p), "pid");
}

#[test]
fn edit_read_failure_names_custom_formats() {
    assert_eq!(
        edit_read_failure("locales/en.json", "bad"),
        "Edit currently supports standard formats (.strings, .xml, .xcstrings, .csv, .tsv)"
    );
    assert_eq!(
        edit_read_failure("a.langcodec", "bad"),
        "Edit currently supports standard formats (.strings, .xml, .xcstrings, .csv, .tsv)"
    );
    assert_eq!(
        edit_read_failure("en.lproj/Localizable.strings", "unexpected token"),
        "Failed to read input 'en.lproj/Localizable.strings': unexpected token"
    );
    assert_eq!(edit_read_failure(".json", "e"), "Failed to read input '.json': e");
}

#[test]
fn edit_run_stops_at_the_first_failure_unless_continuing() {
    let mut t = EditTally { processed: 0, success: 0, failed: 0 };
    assert!(matches!(record_edit_file(&mut t, Ok(()), false), EditNext::Next));
    match record_edit_file(&mut t, Err("bad file".to_string()), false) {
        EditNext::Stop(line, error) => {
            assert_eq!(line, "Summary: processed 2; success: 1; failed: 1");
            assert_eq!(error, "bad file");
        }
        EditNext::Next => panic!("must stop"),
    }
    let mut t = EditTally { processed: 0, success: 0, failed: 0 };
    assert!(matches!(record_edit_file(&mut t, Err("bad".to_string()), true), EditNext::Next));
    assert_eq!((t.processed, t.success, t.failed), (1, 0, 1));
    assert_eq!(record_missing_input(&mut t, "a.strings", true), Ok("Input file does not exist: a.strings".to_string()));
    assert_eq!(t.failed, 2);
    assert_eq!(record_missing_input(&mut t, "b.strings", false), Err("Input file does not exist: b.strings".to_string()));
    assert_eq!((t.processed, t.failed), (1, 2));
}

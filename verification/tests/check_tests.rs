use langcodec_cli::check::{check_file, FileCheck};
use langcodec_cli::check::{
    check_parsed_file, check_unreadable_file, collect_file_validation_issues, collect_group_placeholder_issues,
    expand_inputs_independently, finish_check_run, render_signature, report_lines, sort_issues,
    sorted_unique_paths, start_check_run, CheckIssue, IssueKind, PlaceholderObservation, PlaceholderValidator,
    PluralIssue,
};
use langcodec_cli::model::{Codec, Entry, EntryStatus, Metadata, PluralCategory, Resource, Translation};
use langcodec_cli::path_glob::WalkEntry;

fn issue_kinds(issues: &[CheckIssue]) -> Vec<&'static str> {
    issues.iter().map(|i| i.kind.name()).collect()
}

fn resource(language: &str, domain: &str, entries: Vec<Entry>) -> Resource {
    Resource {
        metadata: Metadata { language: language.to_string(), domain: domain.to_string(), custom: Vec::new() },
        entries,
    }
}

fn singular(id: &str, value: &str) -> Entry {
    Entry { id: id.to_string(), value: Translation::Singular(value.to_string()), comment: None, status: EntryStatus::Translated }
}

fn obs(path: &str, sig: Option<Vec<&str>>) -> PlaceholderObservation {
    PlaceholderObservation {
        path: path.to_string(),
        signature: sig.map(|s| s.into_iter().map(|p| p.to_string()).collect()),
    }
}

#[test]
fn issue_paths_are_sorted_and_deduplicated() {
    let issue = CheckIssue::new(
        vec!["b.strings".to_string(), "a.strings".to_string(), "b.strings".to_string()],
        IssueKind::Placeholder,
        "m".to_string(),
    );
    assert_eq!(issue.paths, vec!["a.strings".to_string(), "b.strings".to_string()]);
    assert_eq!(issue.path, "a.strings");

    let none = CheckIssue::new(Vec::new(), IssueKind::Input, "m".to_string());
    assert_eq!(none.path, "<inputs>");
    assert!(none.paths.is_empty());

    let one = CheckIssue::for_path("x.csv", IssueKind::Parse, "bad".to_string());
    assert_eq!(one.path, "x.csv");
    assert_eq!(one.paths, vec!["x.csv".to_string()]);
    assert_eq!(one.kind.name(), "parse");
}

#[test]
fn sorted_unique_paths_orders_by_text() {
    let v = sorted_unique_paths(&["b".to_string(), "a".to_string(), "b".to_string(), "A".to_string()]);
    assert_eq!(v, vec!["A".to_string(), "a".to_string(), "b".to_string()]);
}

#[test]
fn issues_sort_by_path_then_kind_and_drop_repeats() {
    let mut issues = vec![
        CheckIssue::for_path("b.csv", IssueKind::Input, "x".to_string()),
        CheckIssue::for_path("a.csv", IssueKind::Plural, "z".to_string()),
        CheckIssue::for_path("a.csv", IssueKind::Parse, "y".to_string()),
        CheckIssue::for_path("a.csv", IssueKind::Plural, "z".to_string()),
        CheckIssue::for_path("a.csv", IssueKind::Plural, "m".to_string()),
    ];
    sort_issues(&mut issues);
    let order: Vec<(String, &str, String)> =
        issues.iter().map(|i| (i.path.clone(), i.kind.name(), i.message.clone())).collect();
    assert_eq!(
        order,
        vec![
            ("a.csv".to_string(), "parse", "y".to_string()),
            ("a.csv".to_string(), "plural", "m".to_string()),
            ("a.csv".to_string(), "plural", "z".to_string()),
            ("b.csv".to_string(), "input", "x".to_string()),
        ]
    );
}

#[test]
fn signature_renders_as_a_debug_list() {
    assert_eq!(render_signature(&["%d".to_string(), "%@".to_string()]), "[\"%d\", \"%@\"]");
    assert_eq!(render_signature(&["a\"b".to_string()]), "[\"a\\\"b\"]");
    assert_eq!(render_signature(&[]), "[]");
}

#[test]
fn duplicate_entries_for_one_language_are_reported() {
    let langs = vec![("en".to_string(), vec![obs("b.csv", Some(vec!["%d"])), obs("a.csv", Some(vec!["%d"]))])];
    let issues = collect_group_placeholder_issues("", "welcome", &langs);
    assert_eq!(issues.len(), 1);
    assert_eq!(
        issues[0].message,
        "domain '' key 'welcome' has 2 duplicate entries for language 'en' in [a.csv, b.csv]"
    );
    assert_eq!(issues[0].paths, vec!["a.csv".to_string(), "b.csv".to_string()]);
}

#[test]
fn every_differing_language_pair_is_reported() {
    let langs = vec![
        ("de".to_string(), vec![obs("de.strings", Some(vec!["%d"]))]),
        ("en".to_string(), vec![obs("en.strings", Some(vec!["%@"]))]),
        ("fr".to_string(), vec![obs("fr.strings", Some(vec!["%d"]))]),
        ("ja".to_string(), vec![obs("ja.strings", None)]),
    ];
    let issues = collect_group_placeholder_issues("Main", "count", &langs);
    assert_eq!(issues.len(), 2);
    assert_eq!(
        issues[0].message,
        "domain 'Main' key 'count' placeholder mismatch: language 'de' at 'de.strings' has [\"%d\"] vs language 'en' at 'en.strings' has [\"%@\"]"
    );
    assert_eq!(issues[0].paths, vec!["de.strings".to_string(), "en.strings".to_string()]);
    assert!(issues[1].message.contains("language 'en' at 'en.strings'"));
    assert!(issues[1].message.contains("language 'fr' at 'fr.strings'"));
}

#[test]
fn validator_compares_keys_across_files_but_not_across_domains() {
    let mut validator = PlaceholderValidator::new();
    let en = Codec { resources: vec![resource("en", "", vec![singular("count", "%d items")])] };
    let failed = validator.add_file("en.strings", &en, &vec![vec![vec!["%d".to_string()]]]);
    assert!(!failed);
    let fr = Codec {
        resources: vec![
            resource("fr", "", vec![singular("count", "%@ objets")]),
            resource("fr", "Other", vec![singular("count", "%d")]),
        ],
    };
    let failed = validator.add_file("fr.strings", &fr, &vec![vec![vec!["%@".to_string()]], vec![vec!["%d".to_string()]]]);
    assert!(failed);
    let issues = validator.into_issues();
    assert_eq!(issues.len(), 1);
    assert_eq!(issues[0].kind.name(), "placeholder");
    assert_eq!(issues[0].paths, vec!["en.strings".to_string(), "fr.strings".to_string()]);
    assert!(issues[0].message.starts_with("domain '' key 'count' placeholder mismatch"));
}

#[test]
fn validator_skips_resources_whose_language_does_not_parse() {
    let mut validator = PlaceholderValidator::new();
    let bad = Codec { resources: vec![resource("not a locale!!", "", vec![singular("k", "%d")])] };
    assert!(!validator.add_file("bad.strings", &bad, &vec![vec![vec!["%d".to_string()]]]));
    assert!(validator.into_issues().is_empty());
}

#[test]
fn file_validation_reports_structure_locale_and_plural_issues() {
    let mut issues = Vec::new();
    collect_file_validation_issues("empty.xcstrings", &Codec::new(), &Vec::new(), &mut issues);
    assert_eq!(issues.len(), 1);
    assert_eq!(issues[0].message, "No resources found");
    assert_eq!(issues[0].kind.name(), "structure");

    let codec = Codec {
        resources: vec![
            resource("fr_CA", "", vec![singular("a", "x")]),
            resource("not a locale!!", "Main", Vec::new()),
            resource("fr-CA", "", vec![singular("a", "y")]),
        ],
    };
    let plurals = vec![
        PluralIssue {
            language: "ru".to_string(),
            key: "files".to_string(),
            missing: vec![PluralCategory::Few, PluralCategory::Many],
            have: vec![PluralCategory::One, PluralCategory::Other],
        },
        PluralIssue {
            language: "pl".to_string(),
            key: "files".to_string(),
            missing: vec![PluralCategory::Few],
            have: vec![PluralCategory::Other],
        },
    ];
    let mut issues = Vec::new();
    collect_file_validation_issues("cat.xcstrings", &codec, &plurals, &mut issues);
    assert_eq!(issue_kinds(&issues), vec!["structure", "locale", "locale", "plural", "plural"]);
    assert_eq!(issues[0].message, "Resource for language 'not a locale!!' in domain 'Main' has no entries");
    assert_eq!(
        issues[1].message,
        "invalid locale identity 'not a locale!!'; expected a Unicode language identifier"
    );
    assert_eq!(
        issues[2].message,
        "catalog contains 2 resources with duplicate identity (locale 'fr-CA', domain ''): [fr-CA, fr_CA]"
    );
    assert_eq!(issues[3].message, "language 'pl' key 'files': missing [few] (have [other])");
    assert_eq!(issues[4].message, "language 'ru' key 'files': missing [few, many] (have [one, other])");
}

#[test]
fn same_locale_in_distinct_domains_is_accepted() {
    let codec = Codec {
        resources: vec![
            resource("en", "Localizable", vec![singular("a", "x")]),
            resource("en", "InfoPlist", vec![singular("b", "y")]),
        ],
    };
    let mut issues = Vec::new();
    collect_file_validation_issues("cat.xcstrings", &codec, &Vec::new(), &mut issues);
    assert!(issues.is_empty());
}

#[test]
fn traversal_errors_become_input_issues() {
    let inputs = vec!["/tmp/check/missing/*.xcstrings".to_string()];
    let walks = vec![vec![WalkEntry::Failed(
        "IO error for operation on /tmp/check/missing: No such file or directory (os error 2)".to_string(),
    )]];
    let (paths, issues) = expand_inputs_independently(&inputs, &walks);
    assert!(paths.is_empty());
    assert_eq!(issues.len(), 1);
    assert_eq!(issues[0].kind.name(), "input");
    assert!(issues[0].message.contains("Failed to traverse"));
}

#[test]
fn invalid_glob_becomes_an_input_issue() {
    let inputs = vec!["locales/[unclosed.strings".to_string(), "b.strings".to_string(), "a.strings".to_string()];
    let walks = vec![Vec::new(), Vec::new(), Vec::new()];
    let (paths, issues) = expand_inputs_independently(&inputs, &walks);
    assert_eq!(paths, vec!["a.strings".to_string(), "b.strings".to_string()]);
    assert_eq!(issues.len(), 1);
    assert!(issues[0].message.starts_with("Invalid glob pattern 'locales/[unclosed.strings'"));
}

#[test]
fn glob_expansion_keeps_matching_files_sorted_once() {
    let inputs = vec!["locales/*.strings".to_string()];
    let walks = vec![vec![
        WalkEntry::File("locales/fr.strings".to_string()),
        WalkEntry::Other,
        WalkEntry::File("locales/en.strings".to_string()),
        WalkEntry::File("locales/readme.md".to_string()),
        WalkEntry::File("locales/en.strings".to_string()),
    ]];
    let (paths, issues) = expand_inputs_independently(&inputs, &walks);
    assert_eq!(paths, vec!["locales/en.strings".to_string(), "locales/fr.strings".to_string()]);
    assert!(issues.is_empty());
}

#[test]
fn a_run_stops_on_input_issues_unless_continuing() {
    let issues = vec![CheckIssue::for_path("x", IssueKind::Input, "bad".to_string())];
    let report = start_check_run(issues, false).err().unwrap();
    assert!(!report.valid);
    assert_eq!(report.files_checked, 0);
    assert_eq!(report.issues.len(), 1);

    let issues = vec![CheckIssue::for_path("x", IssueKind::Input, "bad".to_string())];
    let run = start_check_run(issues, true).ok().unwrap();
    assert_eq!(run.issues.len(), 1);
}

#[test]
fn a_run_collects_and_reports() {
    let mut run = start_check_run(Vec::new(), true).ok().unwrap();
    let ok = Codec { resources: vec![resource("en", "", vec![singular("a", "x")])] };
    assert!(!check_parsed_file(&mut run, "en.strings", &ok, &Vec::new(), &vec![vec![Vec::new()]]));
    assert!(check_unreadable_file(&mut run, "broken.strings", "unexpected token".to_string()));
    let report = finish_check_run(run);
    assert!(!report.valid);
    assert_eq!(report.files_checked, 2);
    let lines = report_lines(&report);
    assert_eq!(
        lines,
        vec![
            "ERROR broken.strings [parse]: unexpected token".to_string(),
            "FAILED: checked 2 file(s); found 1 issue(s)".to_string(),
        ]
    );

    let run = start_check_run(Vec::new(), false).ok().unwrap();
    let report = finish_check_run(run);
    assert!(report.valid);
    assert_eq!(report_lines(&report), vec!["OK: checked 0 file(s); no issues found".to_string()]);
}

#[test]
fn check_run_stops_after_the_first_failing_file_unless_continuing() {
    let mut run = match start_check_run(Vec::new(), false) {
        Ok(run) => run,
        Err(_) => panic!("no input issue"),
    };
    assert!(!check_file(&mut run, "a-malformed.xcstrings", FileCheck::Unreadable("bad".to_string()), false));
    assert_eq!(run.files_checked, 1);
    let report = finish_check_run(run);
    assert_eq!(report.issues.len(), 1);
    assert_eq!(report.issues[0].kind, IssueKind::Parse);

    let mut run = match start_check_run(Vec::new(), true) {
        Ok(run) => run,
        Err(_) => panic!("no input issue"),
    };
    assert!(check_file(&mut run, "a.xcstrings", FileCheck::Unreadable("bad".to_string()), true));
    let empty = Codec { resources: Vec::new() };
    assert!(check_file(&mut run, "b.xcstrings", FileCheck::Parsed(empty, Vec::new(), Vec::new()), true));
    let empty = Codec { resources: Vec::new() };
    assert!(!check_file(&mut run, "c.xcstrings", FileCheck::Parsed(empty, Vec::new(), Vec::new()), false));
    assert_eq!(run.files_checked, 3);
}

#[test]
fn inputs_in_another_order_give_the_same_run() {
    let first = vec![
        "locales/*.strings".to_string(),
        "b/[bad.strings".to_string(),
        "a.strings".to_string(),
    ];
    let first_walks = vec![
        vec![
            WalkEntry::File("locales/fr.strings".to_string()),
            WalkEntry::File("locales/en.strings".to_string()),
        ],
        Vec::new(),
        Vec::new(),
    ];
    let second = vec![
        "a.strings".to_string(),
        "b/[bad.strings".to_string(),
        "locales/*.strings".to_string(),
        "a.strings".to_string(),
    ];
    let second_walks = vec![
        Vec::new(),
        Vec::new(),
        vec![
            WalkEntry::File("locales/fr.strings".to_string()),
            WalkEntry::File("locales/en.strings".to_string()),
        ],
        Vec::new(),
    ];
    let (p1, q1) = expand_inputs_independently(&first, &first_walks);
    let (p2, q2) = expand_inputs_independently(&second, &second_walks);
    assert_eq!(p1, p2);
    assert_eq!(
        p1,
        vec!["a.strings".to_string(), "locales/en.strings".to_string(), "locales/fr.strings".to_string()]
    );
    let r1 = start_check_run(q1, false).err().unwrap();
    let r2 = start_check_run(q2, false).err().unwrap();
    let lines = |r: &langcodec_cli::check::CheckReport| -> Vec<(String, String)> {
        r.issues.iter().map(|i| (i.path.clone(), i.message.clone())).collect()
    };
    assert_eq!(lines(&r1), lines(&r2));
    assert_eq!(r1.issues.len(), 1);
}

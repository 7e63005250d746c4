use langcodec_cli::path_glob::{
    expand_input_glob_unfiltered, expand_input_globs, glob_walk_needed, has_glob_meta, input_walk_roots,
    static_prefix_dir, WalkEntry,
};

#[test]
fn unfiltered_glob_surfaces_traversal_errors() {
    let pattern = "/tmp/langcodec-test/missing/*.xcstrings".to_string();
    let walked = vec![WalkEntry::Failed(
        "IO error for operation on /tmp/langcodec-test/missing: No such file or directory (os error 2)".to_string(),
    )];

    let expansion = expand_input_glob_unfiltered(&pattern, &walked);

    assert!(expansion.paths.is_empty());
    assert!(expansion.errors.iter().any(|error| error.contains("Failed to traverse")));
}

#[test]
fn unfiltered_glob_includes_brace_matches_sorted() {
    let pattern = "/tmp/t/*.{strings,xcstrings}".to_string();
    let walked = vec![
        WalkEntry::File("/tmp/t/ignored.xcstrings".to_string()),
        WalkEntry::File("/tmp/t/ignored.strings".to_string()),
        WalkEntry::File("/tmp/t/other.txt".to_string()),
        WalkEntry::Other,
    ];
    let expansion = expand_input_glob_unfiltered(&pattern, &walked);
    assert!(expansion.errors.is_empty());
    assert_eq!(
        expansion.paths,
        vec!["/tmp/t/ignored.strings".to_string(), "/tmp/t/ignored.xcstrings".to_string()]
    );
}

#[test]
fn unfiltered_literal_and_unmatched_inputs_are_kept() {
    let literal = expand_input_glob_unfiltered("a/b.strings", &Vec::new());
    assert_eq!(literal.paths, vec!["a/b.strings".to_string()]);
    let unmatched = expand_input_glob_unfiltered("a/*.strings", &vec![WalkEntry::File("a/b.csv".to_string())]);
    assert_eq!(unmatched.paths, vec!["a/*.strings".to_string()]);
    assert!(unmatched.errors.is_empty());
}

#[test]
fn glob_component_uses_its_parent_as_the_walk_root() {
    assert_eq!(static_prefix_dir("locales/values*/strings.xml"), "locales");
    assert_eq!(static_prefix_dir("*.strings"), ".");
    assert_eq!(
        input_walk_roots(&vec!["locales/*.strings".to_string(), "locales/en.strings".to_string(), "x.csv".to_string()]),
        vec!["locales".to_string(), "".to_string()]
    );
}

#[test]
fn literal_input_behavior_is_unchanged() {
    let input = "missing/file.strings".to_string();
    assert_eq!(expand_input_globs(&vec![input.clone()], &Vec::new()).unwrap(), vec![input]);
}

#[test]
fn matched_files_are_kept_once_in_walk_order() {
    let inputs = vec!["l/*.strings".to_string()];
    let walked = vec!["l/fr.strings".to_string(), "l/en.strings".to_string(), "l/fr.strings".to_string(), "l/x.csv".to_string()];
    assert_eq!(
        expand_input_globs(&inputs, &walked).unwrap(),
        vec!["l/fr.strings".to_string(), "l/en.strings".to_string()]
    );
    let err = expand_input_globs(&vec!["[bad".to_string()], &Vec::new()).unwrap_err();
    assert!(err.starts_with("Invalid glob pattern '[bad'"));
}

#[test]
fn glob_meta_is_detected() {
    assert!(has_glob_meta("a/*.strings"));
    assert!(has_glob_meta("a/{x,y}"));
    assert!(!has_glob_meta("a/b.strings"));
    assert!(glob_walk_needed("a/*.strings"));
    assert!(!glob_walk_needed("a/b.strings"));
}

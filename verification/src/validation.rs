//! Validation of command inputs: file paths, language codes, and format names.

use vstd::prelude::*;
use vstd::string::*;
use crate::formats::{
    custom_format_from_key, format_key, get_supported_custom_formats, lower_extension,
    lowered_extension, parse_custom_format, supported_custom_formats_text,
};
use crate::langid::{language_code_ok, validate_language_code};
use crate::paths::{metadata_is_file, parent_of, path_exists, path_is_file, path_parent};
use crate::text::{
    ascii_lower, cat, cat3, cat4, chars_eq_str, decimal, owned, trim, trim_chars, trim_lower,
    usize_to_string,
};

verus! {

broadcast use vstd::string::group_string_axioms;

/// The inputs of one command that are checked before it runs.
pub struct ValidationContext {
    pub input_files: Vec<String>,
    pub output_file: Option<String>,
    pub language_code: Option<String>,
    pub input_format: Option<String>,
    pub output_format: Option<String>,
}

impl ValidationContext {
    /// An empty context: nothing to check.
    pub fn new() -> (r: Self)
        ensures
            r.input_files@.len() == 0,
            r.output_file is None,
            r.language_code is None,
            r.input_format is None,
            r.output_format is None,
    {
        ValidationContext {
            input_files: Vec::new(),
            output_file: None,
            language_code: None,
            input_format: None,
            output_format: None,
        }
    }

    /// Adds an input file to check.
    pub fn with_input_file(self, file: String) -> (r: Self)
        ensures
            r.input_files@ == self.input_files@.push(file),
            r.output_file == self.output_file,
            r.language_code == self.language_code,
            r.input_format == self.input_format,
            r.output_format == self.output_format,
    {
        let mut s = self;
        s.input_files.push(file);
        s
    }

    /// Sets the output file to check.
    pub fn with_output_file(self, file: String) -> (r: Self)
        ensures
            r.input_files == self.input_files,
            r.output_file == Some(file),
            r.language_code == self.language_code,
            r.input_format == self.input_format,
            r.output_format == self.output_format,
    {
        let mut s = self;
        s.output_file = Some(file);
        s
    }

    /// Sets the language code to check.
    pub fn with_language_code(self, lang: String) -> (r: Self)
        ensures
            r.input_files == self.input_files,
            r.output_file == self.output_file,
            r.language_code == Some(lang),
            r.input_format == self.input_format,
            r.output_format == self.output_format,
    {
        let mut s = self;
        s.language_code = Some(lang);
        s
    }

    /// Sets the input format name to check.
    pub fn with_input_format(self, format: String) -> (r: Self)
        ensures
            r.input_files == self.input_files,
            r.output_file == self.output_file,
            r.language_code == self.language_code,
            r.input_format == Some(format),
            r.output_format == self.output_format,
    {
        let mut s = self;
        s.input_format = Some(format);
        s
    }

    /// Sets the output format name to check.
    pub fn with_output_format(self, format: String) -> (r: Self)
        ensures
            r.input_files == self.input_files,
            r.output_file == self.output_file,
            r.language_code == self.language_code,
            r.input_format == self.input_format,
            r.output_format == Some(format),
    {
        let mut s = self;
        s.output_format = Some(format);
        s
    }
}

impl Default for ValidationContext {
    fn default() -> (r: Self)
        ensures
            r.input_files@.len() == 0,
            r.output_file is None,
            r.language_code is None,
            r.input_format is None,
            r.output_format is None,
    {
        ValidationContext::new()
    }
}

/// The verdict on a file path, given what the file system reports: whether it
/// exists, whether it is a file, and whether its metadata says it is a file.
pub open spec fn file_verdict(path: Seq<char>, exists: bool, is_file: bool, readable: bool) -> Result<
    (),
    Seq<char>,
> {
    if !exists {
        Err("File does not exist: "@ + path)
    } else if !is_file {
        Err("Path is not a file: "@ + path)
    } else if !readable {
        Err("Cannot read file: "@ + path)
    } else {
        Ok(())
    }
}

pub open spec fn result_view(r: Result<(), String>) -> Result<(), Seq<char>> {
    match r {
        Ok(()) => Ok(()),
        Err(e) => Err(e@),
    }
}

/// The verdict on a file path from the file system's three answers.
pub fn file_path_verdict(path: &str, exists: bool, is_file: bool, readable: bool) -> (r: Result<
    (),
    String,
>)
    ensures
        result_view(r) == file_verdict(path@, exists, is_file, readable),
{
    if !exists {
        Err(cat("File does not exist: ", path))
    } else if !is_file {
        Err(cat("Path is not a file: ", path))
    } else if !readable {
        Err(cat("Cannot read file: ", path))
    } else {
        Ok(())
    }
}

/// Validates that a file path exists and is a file, and that its metadata can
/// be read (the check behind "Cannot read file"). What the file system
/// reports is not known in advance; whatever it reports, the result is the
/// verdict on those answers.
pub fn validate_file_path(path: &str) -> (r: Result<(), String>)
    ensures
        exists|e: bool, f: bool, m: bool| result_view(r) == file_verdict(path@, e, f, m),
{
    let exists = path_exists(path);
    if !exists {
        return file_path_verdict(path, false, false, false);
    }
    let is_file = path_is_file(path);
    if !is_file {
        return file_path_verdict(path, true, false, false);
    }
    let readable = metadata_is_file(path);
    file_path_verdict(path, true, true, readable)
}

pub open spec fn unsupported_custom_message(format: Seq<char>) -> Seq<char> {
    "Unsupported custom format: "@ + format + ". Supported formats: "@
        + supported_custom_formats_text()
}

/// The custom format names that `validate_custom_format` accepts.
pub open spec fn custom_format_ok(format: Seq<char>) -> bool {
    custom_format_from_key(format_key(trim(format))) is Some
}

/// Validates a custom format name (see `parse_custom_format`).
pub fn validate_custom_format(format: &str) -> (r: Result<(), String>)
    ensures
        format@.len() == 0 ==> (r matches Err(e) && e@ == "Format cannot be empty"@),
        format@.len() > 0 ==> (r is Ok <==> custom_format_ok(format@)),
        format@.len() > 0 && !custom_format_ok(format@) ==> (r matches Err(e) && e@
            == unsupported_custom_message(format@)),
{
    if format.unicode_len() == 0 {
        return Err(owned("Format cannot be empty"));
    }
    let v = crate::text::chars_of(format);
    let t = trim_chars(v.as_slice());
    let ts = crate::text::string_from_chars(t.as_slice());
    match parse_custom_format(ts.as_str()) {
        Ok(_) => Ok(()),
        Err(_) => Err(
            cat4(
                "Unsupported custom format: ",
                format,
                ". Supported formats: ",
                get_supported_custom_formats(),
            ),
        ),
    }
}

/// The standard format names, after trimming and lowercasing.
pub open spec fn standard_format_key(k: Seq<char>) -> bool {
    ||| k == "android"@
    ||| k == "androidstrings"@
    ||| k == "xml"@
    ||| k == "strings"@
    ||| k == "stringsdict"@
    ||| k == "xcstrings"@
    ||| k == "xliff"@
    ||| k == "csv"@
    ||| k == "tsv"@
}

/// The standard format names that `validate_standard_format` accepts.
pub open spec fn standard_format_ok(format: Seq<char>) -> bool {
    standard_format_key(ascii_lower(trim(format)))
}

pub open spec fn unsupported_standard_message(format: Seq<char>) -> Seq<char> {
    "Unsupported standard format: "@ + format
        + ". Supported formats: android, strings, stringsdict, xcstrings, xliff, csv, tsv"@
}

/// Validates a standard format name: android (or androidstrings, xml),
/// strings, stringsdict, xcstrings, xliff, csv or tsv, in any case and with
/// surrounding whitespace. None of these names holds a `k`, so ASCII
/// lowercasing decides as Unicode lowercasing does.
pub fn validate_standard_format(format: &str) -> (r: Result<(), String>)
    ensures
        format@.len() == 0 ==> (r matches Err(e) && e@ == "Format cannot be empty"@),
        format@.len() > 0 ==> (r is Ok <==> standard_format_ok(format@)),
        format@.len() > 0 && !standard_format_ok(format@) ==> (r matches Err(e) && e@
            == unsupported_standard_message(format@)),
{
    if format.unicode_len() == 0 {
        return Err(owned("Format cannot be empty"));
    }
    let k = trim_lower(format);
    let ks = k.as_slice();
    if chars_eq_str(ks, "android") || chars_eq_str(ks, "androidstrings") || chars_eq_str(ks, "xml")
        || chars_eq_str(ks, "strings") || chars_eq_str(ks, "stringsdict") || chars_eq_str(
        ks,
        "xcstrings",
    ) || chars_eq_str(ks, "xliff") || chars_eq_str(ks, "csv") || chars_eq_str(ks, "tsv") {
        Ok(())
    } else {
        Err(
            cat3(
                "Unsupported standard format: ",
                format,
                ". Supported formats: android, strings, stringsdict, xcstrings, xliff, csv, tsv",
            ),
        )
    }
}

} // verus!

verus! {

pub open spec fn custom_extension_ok(ext: Seq<char>) -> bool {
    ext == "json"@ || ext == "yaml"@ || ext == "yml"@ || ext == "langcodec"@
}

pub open spec fn unsupported_extension_message(ext: Seq<char>) -> Seq<char> {
    "Unsupported file extension for custom format: "@ + ext
        + ". Expected: json, yaml, yml, langcodec"@
}

/// Validates a custom format input: its extension, in Unicode lowercase, must
/// be json, yaml, yml or langcodec, and the path must be a file.
pub fn validate_custom_format_file(input: &str) -> (r: Result<(), String>)
    ensures
        !custom_extension_ok(lower_extension(input@)) ==> (r matches Err(e) && e@
            == unsupported_extension_message(lower_extension(input@))),
        custom_extension_ok(lower_extension(input@)) ==> exists|e: bool, f: bool, m: bool|
            result_view(r) == file_verdict(input@, e, f, m),
{
    let ext = lowered_extension(input);
    let es = ext.as_slice();
    if chars_eq_str(es, "json") || chars_eq_str(es, "yaml") || chars_eq_str(es, "yml")
        || chars_eq_str(es, "langcodec") {
        validate_file_path(input)
    } else {
        let e = crate::text::string_from_chars(es);
        Err(
            cat3(
                "Unsupported file extension for custom format: ",
                e.as_str(),
                ". Expected: json, yaml, yml, langcodec",
            ),
        )
    }
}

/// What `validate_language_code` reports for a code it refuses.
pub open spec fn language_code_error(lang: Seq<char>) -> Seq<char> {
    if lang.len() == 0 {
        "Language code cannot be empty"@
    } else {
        crate::langid::invalid_language_message(lang)
    }
}

pub open spec fn custom_format_error(format: Seq<char>) -> Seq<char> {
    if format.len() == 0 {
        "Format cannot be empty"@
    } else {
        unsupported_custom_message(format)
    }
}

pub open spec fn standard_format_error(format: Seq<char>) -> Seq<char> {
    if format.len() == 0 {
        "Format cannot be empty"@
    } else {
        unsupported_standard_message(format)
    }
}

pub open spec fn language_code_valid(lang: Seq<char>) -> bool {
    lang.len() > 0 && language_code_ok(lang)
}

pub open spec fn input_format_valid(format: Seq<char>) -> bool {
    (format.len() > 0 && standard_format_ok(format)) || (format.len() > 0 && custom_format_ok(
        format,
    ))
}

pub open spec fn output_format_valid(format: Seq<char>) -> bool {
    format.len() > 0 && standard_format_ok(format)
}

/// The checks of a context that follow the input and output paths: the
/// language code, then the input format (standard or custom), then the output
/// format (standard only).
pub open spec fn context_tail(
    lang: Option<Seq<char>>,
    input_format: Option<Seq<char>>,
    output_format: Option<Seq<char>>,
) -> Result<(), Seq<char>> {
    if lang is Some && !language_code_valid(lang->0) {
        Err("Language code validation failed: "@ + language_code_error(lang->0))
    } else if input_format is Some && !input_format_valid(input_format->0) {
        Err("Input format validation failed: "@ + custom_format_error(input_format->0))
    } else if output_format is Some && !output_format_valid(output_format->0) {
        Err("Output format validation failed: "@ + standard_format_error(output_format->0))
    } else {
        Ok(())
    }
}

pub open spec fn opt_view(o: Option<String>) -> Option<Seq<char>> {
    match o {
        Some(s) => Some(s@),
        None => None,
    }
}

impl ValidationContext {
    pub open spec fn tail_result(&self) -> Result<(), Seq<char>> {
        context_tail(opt_view(self.language_code), opt_view(self.input_format), opt_view(self.output_format))
    }
}

/// Where validation of a context stands after its file checks.
pub enum ContextCheck {
    /// Validation is complete, with this result.
    Done(Result<(), String>),
    /// The output's parent directory does not exist: it is to be created, and
    /// validation resumed with the outcome (`resume_validate_context`).
    CreateOutputDirectory(String),
}

pub open spec fn input_failure(i: int, path: Seq<char>, e: Seq<char>) -> Seq<char> {
    "Input file "@ + decimal((i + 1) as nat) + " validation failed: "@ + e
}

/// The checks of a context after its paths.
pub fn validate_context_tail(context: &ValidationContext) -> (r: Result<(), String>)
    ensures
        result_view(r) == context.tail_result(),
{
    if let Some(lang) = &context.language_code {
        if let Err(e) = validate_language_code(lang.as_str()) {
            return Err(cat("Language code validation failed: ", e.as_str()));
        }
    }
    if let Some(format) = &context.input_format {
        if validate_standard_format(format.as_str()).is_err() {
            if let Err(e) = validate_custom_format(format.as_str()) {
                return Err(cat("Input format validation failed: ", e.as_str()));
            }
        }
    }
    if let Some(format) = &context.output_format {
        if let Err(e) = validate_standard_format(format.as_str()) {
            return Err(cat("Output format validation failed: ", e.as_str()));
        }
    }
    Ok(())
}

/// What the file system reported for one input file: whether it exists,
/// whether it is a file, and whether its metadata says it is a file.
#[derive(Clone, Copy, Debug, PartialEq, Eq, Structural)]
pub struct FileAnswers {
    pub exists: bool,
    pub is_file: bool,
    pub readable: bool,
}

impl ValidationContext {
    /// The input file paths, as strings.
    pub open spec fn input_paths(&self) -> Seq<Seq<char>> {
        self.input_files@.map_values(|s: String| s@)
    }
}

/// The error of the first input file, from index `i` on, whose answers fail
/// `file_verdict`; `None` when every one passes.
pub open spec fn first_input_failure(paths: Seq<Seq<char>>, answers: Seq<FileAnswers>, i: nat) -> Option<
    Seq<char>,
>
    decreases paths.len() - i,
{
    if i >= paths.len() {
        None
    } else {
        match file_verdict(paths[i as int], answers[i as int].exists, answers[i as int].is_file, answers[i as int].readable) {
            Err(v) => Some(input_failure(i as int, paths[i as int], v)),
            Ok(()) => first_input_failure(paths, answers, i + 1),
        }
    }
}

/// What validating `context` gives when the file system answered `answers`
/// for its input files (in order) and `parent_exists` for the output's parent
/// directory: the first failing input file; else, when the output has a
/// parent that does not exist, a request to create it; else the remaining
/// checks.
pub open spec fn context_outcome(
    context: ValidationContext,
    answers: Seq<FileAnswers>,
    parent_exists: bool,
    r: ContextCheck,
) -> bool {
    match first_input_failure(context.input_paths(), answers, 0) {
        Some(e) => r matches ContextCheck::Done(Err(m)) && m@ == e,
        None => if context.output_file matches Some(o) && path_parent(o@) is Some && !parent_exists {
            r matches ContextCheck::CreateOutputDirectory(d) && path_parent(
                context.output_file->0@,
            ) == Some(d@)
        } else {
            r matches ContextCheck::Done(res) && result_view(res) == context.tail_result()
        },
    }
}

/// Validation of a context from the file system's answers: the input files are
/// judged in order by `file_verdict`, and the first that fails is reported
/// with its position; then the output's parent directory, then the language
/// code and format names.
pub fn context_after_answers(
    context: &ValidationContext,
    answers: &Vec<FileAnswers>,
    parent_exists: bool,
) -> (r: ContextCheck)
    requires
        answers@.len() == context.input_files@.len(),
    ensures
        context_outcome(*context, answers@, parent_exists, r),
{
    let ghost paths = context.input_paths();
    let mut i: usize = 0;
    while i < context.input_files.len()
        invariant
            i <= context.input_files@.len(),
            answers@.len() == context.input_files@.len(),
            paths == context.input_paths(),
            first_input_failure(paths, answers@, 0) == first_input_failure(paths, answers@, i as nat),
        decreases context.input_files.len() - i,
    {
        let path = context.input_files[i].as_str();
        let a = answers[i];
        let v = file_path_verdict(path, a.exists, a.is_file, a.readable);
        proof {
            assert(paths[i as int] == path@);
        }
        if let Err(e) = v {
            let n = usize_to_string(i + 1);
            let msg = cat4("Input file ", n.as_str(), " validation failed: ", e.as_str());
            proof {
                assert(msg@ == input_failure(i as int, paths[i as int], e@));
            }
            return ContextCheck::Done(Err(msg));
        }
        i = i + 1;
    }
    if let Some(output) = &context.output_file {
        if let Some(parent) = parent_of(output.as_str()) {
            if !parent_exists {
                return ContextCheck::CreateOutputDirectory(parent);
            }
        }
    }
    ContextCheck::Done(validate_context_tail(context))
}

/// Validates a context: each input file (in order) must exist, be a file,
/// and have metadata that says so; the output's parent directory must exist
/// (else its creation is asked for); then the language code and format names
/// are checked. The file system is asked about the input files up to the
/// first that fails, and about the output's parent only when every input
/// passed; whatever it answers, the result is `context_after_answers` on
/// those answers.
pub fn validate_context(context: &ValidationContext) -> (r: ContextCheck)
    ensures
        exists|answers: Seq<FileAnswers>, parent_exists: bool|
            answers.len() == context.input_files@.len() && context_outcome(
                *context,
                answers,
                parent_exists,
                r,
            ),
        context.input_files@.len() == 0 && context.output_file is None ==> r == ContextCheck::Done(
            r->Done_0,
        ) && result_view(r->Done_0) == context.tail_result(),
{
    let mut answers: Vec<FileAnswers> = Vec::new();
    let mut failed = false;
    let mut i: usize = 0;
    while i < context.input_files.len()
        invariant
            i <= context.input_files@.len(),
            answers@.len() == i,
        decreases context.input_files.len() - i,
    {
        let path = context.input_files[i].as_str();
        let exists = path_exists(path);
        let is_file = if exists {
            path_is_file(path)
        } else {
            false
        };
        let readable = if exists && is_file {
            metadata_is_file(path)
        } else {
            false
        };
        let a = FileAnswers { exists, is_file, readable };
        answers.push(a);
        i = i + 1;
        if !(exists && is_file && readable) {
            failed = true;
            break;
        }
    }
    while answers.len() < context.input_files.len()
        invariant
            answers@.len() <= context.input_files@.len(),
        decreases context.input_files.len() - answers.len(),
    {
        answers.push(FileAnswers { exists: false, is_file: false, readable: false });
    }
    let mut parent_exists = true;
    if !failed {
        if let Some(output) = &context.output_file {
            if let Some(parent) = parent_of(output.as_str()) {
                parent_exists = path_exists(parent.as_str());
            }
        }
    }
    let r = context_after_answers(context, &answers, parent_exists);
    proof {
        if context.input_files@.len() == 0 && context.output_file is None {
            assert(first_input_failure(context.input_paths(), answers@, 0) is None);
        }
    }
    r
}

/// Resumes validation after the output directory was to be created: a failed
/// creation is reported, otherwise the remaining checks run.
pub fn resume_validate_context(context: &ValidationContext, created: Result<(), String>) -> (r: Result<
    (),
    String,
>)
    ensures
        match created {
            Err(c) => r matches Err(e) && e@ == "Output validation failed: Cannot create output directory: "@ + c@,
            Ok(()) => result_view(r) == context.tail_result(),
        },
{
    match created {
        Err(c) => Err(cat("Output validation failed: Cannot create output directory: ", c.as_str())),
        Ok(()) => validate_context_tail(context),
    }
}

} // verus!

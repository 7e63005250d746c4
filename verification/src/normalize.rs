//! The `normalize` command: its key styles, the paths it refuses, how it
//! writes, and what it reports for a file once the catalog has been
//! normalized.

use vstd::prelude::*;
use vstd::string::*;
use crate::convert::{opt_ref_seq, FormatType, FormatView};
use crate::model::{Codec, Resource, ResourceView};
use crate::paths::{path_eq, paths_equal};
use crate::text::{ascii_lower, decimal, ends_with, str_ends_with, trim, trim_lower, usize_to_string};

verus! {

broadcast use vstd::string::group_string_axioms;

/// The options of `normalize`.
#[derive(Debug, Clone)]
pub struct NormalizeCliOptions {
    pub inputs: Vec<String>,
    pub output: Option<String>,
    pub dry_run: bool,
    pub check: bool,
    pub no_placeholders: bool,
    pub key_style: String,
    pub continue_on_error: bool,
    pub strict: bool,
}

/// How `normalize` rewrites keys.
#[derive(Debug, Clone, Copy, PartialEq, Eq, Structural)]
pub enum KeyStyle {
    /// Keys stay as they are (`none`).
    Keep,
    Snake,
    Kebab,
    Camel,
}

/// The key style a `--key-style` value names, compared trimmed and in ASCII
/// lower case; the error carries that normalized text.
pub open spec fn key_style_named(raw: Seq<char>) -> Result<KeyStyle, Seq<char>> {
    let k = ascii_lower(trim(raw));
    if k == "none"@ {
        Ok(KeyStyle::Keep)
    } else if k == "snake"@ {
        Ok(KeyStyle::Snake)
    } else if k == "kebab"@ {
        Ok(KeyStyle::Kebab)
    } else if k == "camel"@ {
        Ok(KeyStyle::Camel)
    } else {
        Err("Invalid --key-style '"@ + k + "'. Expected one of: none, snake, kebab, camel"@)
    }
}

pub fn parse_key_style(input: &str) -> (r: Result<KeyStyle, String>)
    ensures
        match key_style_named(input@) {
            Ok(k) => r == Ok::<KeyStyle, String>(k),
            Err(e) => r matches Err(m) && m@ == e,
        },
{
    let k = trim_lower(input);
    let ks = crate::text::string_from_chars(k.as_slice());
    if crate::text::str_eq(ks.as_str(), "none") {
        Ok(KeyStyle::Keep)
    } else if crate::text::str_eq(ks.as_str(), "snake") {
        Ok(KeyStyle::Snake)
    } else if crate::text::str_eq(ks.as_str(), "kebab") {
        Ok(KeyStyle::Kebab)
    } else if crate::text::str_eq(ks.as_str(), "camel") {
        Ok(KeyStyle::Camel)
    } else {
        Err(
            crate::text::cat3(
                "Invalid --key-style '",
                ks.as_str(),
                "'. Expected one of: none, snake, kebab, camel",
            ),
        )
    }
}

pub open spec fn opt_ends(o: Option<Seq<char>>, suffix: Seq<char>) -> bool {
    match o {
        Some(p) => ends_with(p, suffix),
        None => false,
    }
}

/// The paths `normalize` refuses: `.stringsdict` first, then `.xliff`, on
/// the input or the output.
pub open spec fn normalize_paths_check(input: Seq<char>, output: Option<Seq<char>>) -> Result<
    (),
    Seq<char>,
> {
    if ends_with(input, ".stringsdict"@) || opt_ends(output, ".stringsdict"@) {
        Err(
            ".stringsdict is not supported by `normalize`: placeholder or key rewriting can invalidate plural selector metadata. Use `convert`, `view`, or `check` instead."@,
        )
    } else if ends_with(input, ".xliff"@) || opt_ends(output, ".xliff"@) {
        Err(".xliff is not supported by `normalize` in v1. Use `convert`, `view`, or `debug` instead."@)
    } else {
        Ok(())
    }
}

pub fn reject_xliff_normalize_paths(input: &str, output: Option<&String>) -> (r: Result<(), String>)
    ensures
        match normalize_paths_check(input@, opt_ref_seq(output)) {
            Ok(()) => r is Ok,
            Err(e) => r matches Err(m) && m@ == e,
        },
{
    let out_dict = match output {
        Some(p) => str_ends_with(p.as_str(), ".stringsdict"),
        None => false,
    };
    if str_ends_with(input, ".stringsdict") || out_dict {
        return Err(
            String::from_str(
                ".stringsdict is not supported by `normalize`: placeholder or key rewriting can invalidate plural selector metadata. Use `convert`, `view`, or `check` instead.",
            ),
        );
    }
    let out_xliff = match output {
        Some(p) => str_ends_with(p.as_str(), ".xliff"),
        None => false,
    };
    if str_ends_with(input, ".xliff") || out_xliff {
        return Err(
            String::from_str(
                ".xliff is not supported by `normalize` in v1. Use `convert`, `view`, or `debug` instead.",
            ),
        );
    }
    Ok(())
}

/// The one resource a single-language output of `normalize` takes.
pub fn pick_single_resource(codec: &Codec) -> (r: Result<&Resource, String>)
    ensures
        codec@.len() == 1 ==> (r matches Ok(res) && res@ == codec@[0]),
        codec@.len() != 1 ==> (r matches Err(m) && m@
            == "Multiple languages present; single-language output requires exactly one resource"@),
{
    if codec.resources.len() == 1 {
        Ok(&codec.resources[0])
    } else {
        Err(
            String::from_str(
                "Multiple languages present; single-language output requires exactly one resource",
            ),
        )
    }
}

/// How a normalized catalog is written.
#[derive(Debug, Clone, Copy, PartialEq, Eq, Structural)]
pub enum NormalizeWrite {
    /// Its one resource, to a single-language file.
    SingleResource,
    /// All resources, to a multi-language file.
    AllResources,
}

pub open spec fn normalize_write_for(f: FormatView) -> Result<NormalizeWrite, Seq<char>> {
    match f {
        FormatView::Strings(_) | FormatView::AndroidStrings(_) => Ok(NormalizeWrite::SingleResource),
        FormatView::Stringsdict(_) => Err(
            ".stringsdict is not supported by `normalize`. Use `convert`, `view`, or `check` instead."@,
        ),
        FormatView::Xcstrings | FormatView::CSV | FormatView::TSV => Ok(NormalizeWrite::AllResources),
        FormatView::Xliff(_) => Err(
            ".xliff is not supported by `normalize` in v1. Use `convert`, `view`, or `debug` instead."@,
        ),
    }
}

pub fn normalize_write_plan(format: &FormatType) -> (r: Result<NormalizeWrite, String>)
    ensures
        match normalize_write_for(format@) {
            Ok(w) => r == Ok::<NormalizeWrite, String>(w),
            Err(e) => r matches Err(m) && m@ == e,
        },
{
    match format {
        FormatType::Strings(_) | FormatType::AndroidStrings(_) => Ok(NormalizeWrite::SingleResource),
        FormatType::Stringsdict(_) => Err(
            String::from_str(
                ".stringsdict is not supported by `normalize`. Use `convert`, `view`, or `check` instead.",
            ),
        ),
        FormatType::Xcstrings | FormatType::CSV | FormatType::TSV => Ok(NormalizeWrite::AllResources),
        FormatType::Xliff(_) => Err(
            String::from_str(
                ".xliff is not supported by `normalize` in v1. Use `convert`, `view`, or `debug` instead.",
            ),
        ),
    }
}

/// Whether an output path is given that is another path than the input.
pub open spec fn distinct_output(input: Seq<char>, output: Option<Seq<char>>) -> bool {
    match output {
        Some(o) => !path_eq(o, input),
        None => false,
    }
}

pub fn has_distinct_output_path(input_path: &str, output_path: &Option<String>) -> (r: bool)
    ensures
        r == distinct_output(input_path@, crate::model::opt_seq(*output_path)),
{
    match output_path {
        Some(o) => !paths_equal(o.as_str(), input_path),
        None => false,
    }
}

pub fn has_glob_meta(input: &str) -> (r: bool)
    ensures
        r == crate::path_glob::glob_meta(input@),
{
    crate::path_glob::has_glob_meta(input)
}

/// What `normalize` does with one file once its catalog has been normalized:
/// whether it writes the catalog, the lines it prints after that, and what
/// the file counts as (`Ok(changed)`, or a failure).
pub struct NormalizeStep {
    pub write: bool,
    pub lines: Vec<String>,
    pub outcome: Result<bool, String>,
}

pub struct NormalizeStepView {
    pub write: bool,
    pub lines: Seq<Seq<char>>,
    pub outcome: Result<bool, Seq<char>>,
}

impl View for NormalizeStep {
    type V = NormalizeStepView;

    open spec fn view(&self) -> NormalizeStepView {
        NormalizeStepView {
            write: self.write,
            lines: crate::text::strings_view(self.lines@),
            outcome: match self.outcome {
                Ok(c) => Ok(c),
                Err(e) => Err(e@),
            },
        }
    }
}

/// `check` fails on a file that would change; a dry run reports; otherwise
/// a changed catalog is written, and an unchanged one only when it goes to
/// another path.
pub open spec fn normalize_step(
    input: Seq<char>,
    output: Option<Seq<char>>,
    changed: bool,
    check: bool,
    dry_run: bool,
) -> NormalizeStepView {
    let unchanged_line = "No changes needed: "@ + input;
    let target = match output {
        Some(o) => o,
        None => input,
    };
    if check {
        if changed {
            NormalizeStepView {
                write: false,
                lines: seq!["would change: "@ + input],
                outcome: Err("would change: "@ + input),
            }
        } else {
            NormalizeStepView { write: false, lines: seq![unchanged_line], outcome: Ok(false) }
        }
    } else if dry_run {
        if changed {
            NormalizeStepView {
                write: false,
                lines: seq!["DRY-RUN: would change "@ + input],
                outcome: Ok(true),
            }
        } else {
            NormalizeStepView { write: false, lines: seq![unchanged_line], outcome: Ok(false) }
        }
    } else if !changed {
        if distinct_output(input, output) {
            NormalizeStepView {
                write: true,
                lines: seq![unchanged_line, "✅ Wrote output: "@ + target],
                outcome: Ok(false),
            }
        } else {
            NormalizeStepView { write: false, lines: seq![unchanged_line], outcome: Ok(false) }
        }
    } else {
        NormalizeStepView { write: true, lines: seq!["✅ Normalized: "@ + target], outcome: Ok(true) }
    }
}

fn one_line(s: String) -> (r: Vec<String>)
    ensures
        crate::text::strings_view(r@) == seq![s@],
{
    let mut v: Vec<String> = Vec::new();
    v.push(s);
    assert(crate::text::strings_view(v@) =~= seq![s@]);
    v
}

pub fn plan_normalize_step(
    input: &str,
    output: &Option<String>,
    changed: bool,
    check: bool,
    dry_run: bool,
) -> (r: NormalizeStep)
    ensures
        r@ == normalize_step(input@, crate::model::opt_seq(*output), changed, check, dry_run),
{
    let unchanged_line = crate::text::cat("No changes needed: ", input);
    let target = match output {
        Some(o) => o.clone(),
        None => String::from_str(input),
    };
    if check {
        if changed {
            let m = crate::text::cat("would change: ", input);
            NormalizeStep {
                write: false,
                lines: one_line(m.clone()),
                outcome: Err(m),
            }
        } else {
            NormalizeStep { write: false, lines: one_line(unchanged_line), outcome: Ok(false) }
        }
    } else if dry_run {
        if changed {
            NormalizeStep {
                write: false,
                lines: one_line(crate::text::cat("DRY-RUN: would change ", input)),
                outcome: Ok(true),
            }
        } else {
            NormalizeStep { write: false, lines: one_line(unchanged_line), outcome: Ok(false) }
        }
    } else if !changed {
        if has_distinct_output_path(input, output) {
            let mut lines: Vec<String> = Vec::new();
            lines.push(unchanged_line);
            lines.push(crate::text::cat("✅ Wrote output: ", target.as_str()));
            proof {
                assert(crate::text::strings_view(lines@) =~= seq![
                    "No changes needed: "@ + input@,
                    "✅ Wrote output: "@ + target@,
                ]);
            }
            NormalizeStep { write: true, lines, outcome: Ok(false) }
        } else {
            NormalizeStep { write: false, lines: one_line(unchanged_line), outcome: Ok(false) }
        }
    } else {
        NormalizeStep {
            write: true,
            lines: one_line(crate::text::cat("✅ Normalized: ", target.as_str())),
            outcome: Ok(true),
        }
    }
}

/// The line that closes a `normalize` run.
pub open spec fn normalize_summary_text(processed: nat, success: nat, failed: nat, changed: nat) -> Seq<
    char,
> {
    "Summary: processed "@ + decimal(processed) + "; success: "@ + decimal(success) + "; failed: "@
        + decimal(failed) + "; changed: "@ + decimal(changed)
}

pub fn normalize_summary(processed: usize, success: usize, failed: usize, changed: usize) -> (r:
    String)
    ensures
        r@ == normalize_summary_text(processed as nat, success as nat, failed as nat, changed as nat),
{
    let mut m = String::from_str("Summary: processed ");
    let a = usize_to_string(processed);
    m.append(a.as_str());
    m.append("; success: ");
    let b = usize_to_string(success);
    m.append(b.as_str());
    m.append("; failed: ");
    let c = usize_to_string(failed);
    m.append(c.as_str());
    m.append("; changed: ");
    let d = usize_to_string(changed);
    m.append(d.as_str());
    m
}

/// Whether an expanded input is kept: a path without glob characters is
/// kept; one with them only when it names a file.
pub open spec fn keeps_expanded(path: Seq<char>, is_file: bool) -> bool {
    !crate::path_glob::glob_meta(path) || is_file
}

pub fn keep_expanded_input(path: &str, is_file: bool) -> (r: bool)
    ensures
        r == keeps_expanded(path@, is_file),
{
    !has_glob_meta(path) || is_file
}

/// `normalize --check` and dry runs never write a file; `--check` fails
/// exactly on a file that would change; otherwise a file is written when it
/// changed or goes to another path.
pub proof fn lemma_normalize_writes(
    input: Seq<char>,
    output: Option<Seq<char>>,
    changed: bool,
    dry_run: bool,
)
    ensures
        !normalize_step(input, output, changed, true, dry_run).write,
        !normalize_step(input, output, changed, false, true).write,
        normalize_step(input, output, changed, true, dry_run).outcome is Err <==> changed,
        normalize_step(input, output, changed, false, false).write <==> (changed || distinct_output(
            input,
            output,
        )),
{
}

} // verus!

//! What the read-only commands infer from an input path: whether it names a
//! custom (JSON, YAML or langcodec) file, whether it carries explicit status
//! metadata, and how a read falls back from the standard readers.

use vstd::prelude::*;
use vstd::string::*;
use crate::paths::{extension_of, path_extension};
use crate::text::{chars_of, eq_ignore_case, eq_ignore_case_str, ends_with, str_ends_with};

verus! {

broadcast use vstd::string::group_string_axioms;

/// Whether the path ends in one of the custom input extensions.
pub open spec fn custom_input(input: Seq<char>) -> bool {
    ends_with(input, ".json"@) || ends_with(input, ".yaml"@) || ends_with(input, ".yml"@) || ends_with(
        input,
        ".langcodec"@,
    )
}

pub fn is_custom_input_extension(input: &str) -> (r: bool)
    ensures
        r == custom_input(input@),
{
    str_ends_with(input, ".json") || str_ends_with(input, ".yaml") || str_ends_with(input, ".yml")
        || str_ends_with(input, ".langcodec")
}

/// Whether the path's extension is `xcstrings`, in any ASCII case: the one
/// format whose entries carry an explicit status.
pub open spec fn explicit_status_input(input: Seq<char>) -> bool {
    match path_extension(input) {
        Some(e) => eq_ignore_case(e, "xcstrings"@),
        None => false,
    }
}

pub fn input_supports_explicit_status_metadata(input: &str) -> (r: bool)
    ensures
        r == explicit_status_input(input@),
{
    match extension_of(input) {
        Some(e) => {
            let v = chars_of(e.as_str());
            eq_ignore_case_str(v.as_slice(), "xcstrings")
        },
        None => false,
    }
}

/// The next step of a read-only load.
#[derive(Debug, Clone, Copy, PartialEq, Eq, Structural)]
pub enum ReadonlyStep {
    /// The catalog read is the result.
    Done,
    /// Read the file with the custom-format reader (its error is the result).
    ReadCustom,
    /// Give up: no reader accepts the file.
    Unsupported,
}

/// How a read-only command loads its input, given whether the path is a
/// custom input and whether the standard reader succeeded: in strict mode
/// exactly one reader is used (the custom one for custom inputs); otherwise
/// the standard reader is tried first and the custom one after it for
/// custom inputs.
pub open spec fn readonly_step(strict: bool, custom: bool, standard_ok: bool) -> ReadonlyStep {
    if strict {
        if custom {
            ReadonlyStep::ReadCustom
        } else {
            ReadonlyStep::Done
        }
    } else if standard_ok {
        ReadonlyStep::Done
    } else if custom {
        ReadonlyStep::ReadCustom
    } else {
        ReadonlyStep::Unsupported
    }
}

pub fn readonly_load_step(strict: bool, input: &str, standard_ok: bool) -> (r: ReadonlyStep)
    ensures
        r == readonly_step(strict, custom_input(input@), standard_ok),
{
    let custom = is_custom_input_extension(input);
    if strict {
        if custom {
            ReadonlyStep::ReadCustom
        } else {
            ReadonlyStep::Done
        }
    } else if standard_ok {
        ReadonlyStep::Done
    } else if custom {
        ReadonlyStep::ReadCustom
    } else {
        ReadonlyStep::Unsupported
    }
}

/// The refusal of `view --status` in strict mode on an input without
/// explicit status metadata.
pub open spec fn strict_status_check(strict: bool, has_status: bool, input: Seq<char>) -> Result<
    (),
    Seq<char>,
> {
    if strict && has_status && !explicit_status_input(input) {
        Err(
            "Strict mode with --status requires explicit status metadata. Supported in v1: .xcstrings"@,
        )
    } else {
        Ok(())
    }
}

pub fn check_strict_status_filter(strict: bool, status: &Option<String>, input: &str) -> (r: Result<
    (),
    String,
>)
    ensures
        match strict_status_check(strict, status is Some, input@) {
            Ok(()) => r is Ok,
            Err(e) => r matches Err(m) && m@ == e,
        },
{
    if strict && status.is_some() && !input_supports_explicit_status_metadata(input) {
        Err(
            String::from_str(
                "Strict mode with --status requires explicit status metadata. Supported in v1: .xcstrings",
            ),
        )
    } else {
        Ok(())
    }
}

} // verus!

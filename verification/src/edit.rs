//! The `edit set` command: which paths it accepts, what setting or removing
//! a key does to a catalog, and how a run over several files is tallied.

use vstd::prelude::*;
use vstd::string::*;
use crate::convert::{FormatType, FormatView};
use crate::model::{
    added, entries_view, find_key, key_unique_in, find_language, key_position, language_position, lookup, opt_seq, removed, status_named, unknown_status_message,
    updated, with_entry, Codec, Entry, EntryStatus, EntryView, Resource, ResourceView, Translation,
    TranslationView,
};
use crate::text::{decimal, usize_to_string, chars_of, replace_char, replace_chars, str_ends_with, str_eq, string_from_chars};
use crate::translate::{status_key};

verus! {

broadcast use vstd::string::group_string_axioms;

/// The options of `edit set`.
#[derive(Debug, Clone)]
pub struct EditSetOptions {
    pub inputs: Vec<String>,
    pub lang: Option<String>,
    pub key: String,
    pub value: Option<String>,
    pub comment: Option<String>,
    pub status: Option<String>,
    pub output: Option<String>,
    pub dry_run: bool,
    pub continue_on_error: bool,
}

/// The tone of a reported line.
#[derive(Debug, Clone, Copy, PartialEq, Eq, Structural)]
pub enum Tone {
    Success,
    Error,
    Warning,
    Info,
    Accent,
}

/// The state an `edit set` gives, parsed from its snake-case name.
pub open spec fn edit_status(status: Option<Seq<char>>) -> Result<Option<EntryStatus>, Seq<char>> {
    match status {
        None => Ok(None),
        Some(s) => match status_named(status_key(s)) {
            Some(st) => Ok(Some(st)),
            None => Err(unknown_status_message(status_key(s))),
        },
    }
}

pub fn parse_status_opt(status: &Option<String>) -> (r: Result<Option<EntryStatus>, String>)
    ensures
        match edit_status(opt_seq(*status)) {
            Ok(st) => r == Ok::<Option<EntryStatus>, String>(st),
            Err(e) => r matches Err(m) && m@ == e,
        },
{
    match status {
        None => Ok(None),
        Some(s) => {
            let v = chars_of(s.as_str());
            let a = replace_chars(v.as_slice(), '-', '_');
            let b = replace_chars(a.as_slice(), ' ', '_');
            let key = string_from_chars(b.as_slice());
            match EntryStatus::parse(key.as_str()) {
                Ok(st) => Ok(Some(st)),
                Err(e) => Err(e),
            }
        },
    }
}

pub open spec fn opt_ends(o: Option<Seq<char>>, suffix: Seq<char>) -> bool {
    match o {
        Some(p) => crate::text::ends_with(p, suffix),
        None => false,
    }
}

/// The paths `edit` refuses: XLIFF input or output, and `.stringsdict`.
pub open spec fn edit_paths_check(input: Seq<char>, output: Option<Seq<char>>) -> Result<(), Seq<char>> {
    if crate::text::ends_with(input, ".xliff"@) {
        Err(".xliff is not supported by `edit` in v1. Use `convert`, `view`, or `debug` instead."@)
    } else if opt_ends(output, ".xliff"@) {
        Err(".xliff is not supported as an `edit` output in v1. Use `convert` instead."@)
    } else if crate::text::ends_with(input, ".stringsdict"@) || opt_ends(output, ".stringsdict"@) {
        Err(
            ".stringsdict is not supported by `edit set`: singular updates and removals are not representable in this plural-only format."@,
        )
    } else {
        Ok(())
    }
}

pub fn reject_unsafe_edit_paths(input_path: &str, output_path: Option<&String>) -> (r: Result<
    (),
    String,
>)
    ensures
        match edit_paths_check(input_path@, crate::convert::opt_ref_seq(output_path)) {
            Ok(()) => r is Ok,
            Err(e) => r matches Err(m) && m@ == e,
        },
{
    if str_ends_with(input_path, ".xliff") {
        return Err(
            String::from_str(
                ".xliff is not supported by `edit` in v1. Use `convert`, `view`, or `debug` instead.",
            ),
        );
    }
    let out_xliff = match output_path {
        Some(p) => str_ends_with(p.as_str(), ".xliff"),
        None => false,
    };
    if out_xliff {
        return Err(
            String::from_str(
                ".xliff is not supported as an `edit` output in v1. Use `convert` instead.",
            ),
        );
    }
    let out_dict = match output_path {
        Some(p) => str_ends_with(p.as_str(), ".stringsdict"),
        None => false,
    };
    if str_ends_with(input_path, ".stringsdict") || out_dict {
        return Err(
            String::from_str(
                ".stringsdict is not supported by `edit set`: singular updates and removals are not representable in this plural-only format.",
            ),
        );
    }
    Ok(())
}

/// How an edited catalog is written.
#[derive(Debug, Clone, Copy, PartialEq, Eq, Structural)]
pub enum EditWrite {
    /// One resource, to a single-language file.
    SingleResource,
    /// All resources, to a multi-language file.
    AllResources,
}

pub open spec fn edit_write_for(f: FormatView) -> Result<EditWrite, Seq<char>> {
    match f {
        FormatView::Strings(_) | FormatView::AndroidStrings(_) => Ok(EditWrite::SingleResource),
        FormatView::Xcstrings | FormatView::CSV | FormatView::TSV => Ok(EditWrite::AllResources),
        FormatView::Xliff(_) => Err(
            ".xliff is not supported as an `edit` output in v1. Use `convert` instead."@,
        ),
        FormatView::Stringsdict(_) => Err(
            ".stringsdict is not supported by `edit set`: singular updates and removals are not representable in this plural-only format."@,
        ),
    }
}

pub fn edit_write_plan(format: &FormatType) -> (r: Result<EditWrite, String>)
    ensures
        match edit_write_for(format@) {
            Ok(w) => r == Ok::<EditWrite, String>(w),
            Err(e) => r matches Err(m) && m@ == e,
        },
{
    match format {
        FormatType::Strings(_) | FormatType::AndroidStrings(_) => Ok(EditWrite::SingleResource),
        FormatType::Xcstrings | FormatType::CSV | FormatType::TSV => Ok(EditWrite::AllResources),
        FormatType::Xliff(_) => Err(
            String::from_str(
                ".xliff is not supported as an `edit` output in v1. Use `convert` instead.",
            ),
        ),
        FormatType::Stringsdict(_) => Err(
            String::from_str(
                ".stringsdict is not supported by `edit set`: singular updates and removals are not representable in this plural-only format.",
            ),
        ),
    }
}

/// The resource a single-language output takes: the first of the requested
/// language; without a request, the only one.
pub open spec fn edit_single_resource(rs: Seq<ResourceView>, lang: Option<Seq<char>>) -> Result<
    int,
    Seq<char>,
> {
    match lang {
        Some(l) => match find_language(rs, l) {
            Some(i) => Ok(i),
            None => Err("Language '"@ + l + "' not found in input"@),
        },
        None => if rs.len() == 1 {
            Ok(0)
        } else {
            Err("Multiple languages present; specify --lang"@)
        },
    }
}

pub fn pick_single_resource<'a>(codec: &'a Codec, lang: &Option<String>) -> (r: Result<
    &'a Resource,
    String,
>)
    ensures
        match edit_single_resource(codec@, opt_seq(*lang)) {
            Ok(i) => r matches Ok(res) && 0 <= i < codec@.len() && res@ == codec@[i],
            Err(e) => r matches Err(m) && m@ == e,
        },
{
    match lang {
        Some(l) => match codec.get_by_language(l.as_str()) {
            Some(res) => {
                proof {
                    crate::model::lemma_find_language_bounds(codec@, l@);
                }
                Ok(res)
            },
            None => Err(crate::text::cat3("Language '", l.as_str(), "' not found in input")),
        },
        None => if codec.resources.len() == 1 {
            Ok(&codec.resources[0])
        } else {
            Err(String::from_str("Multiple languages present; specify --lang"))
        },
    }
}

/// Whether an `edit set` removes the key: no value, or an empty one.
pub open spec fn is_removal(value: Option<Seq<char>>) -> bool {
    match value {
        Some(v) => v.len() == 0,
        None => true,
    }
}

/// A catalog after an edit, with the line that reports it.
pub type EditOutcome = (Seq<ResourceView>, Tone, Seq<char>);

/// Removing `key` from the resource of language `l`.
pub open spec fn removal_in(
    rs: Seq<ResourceView>,
    input: Seq<char>,
    l: Seq<char>,
    key: Seq<char>,
    dry_run: bool,
) -> EditOutcome {
    if lookup(rs, key, l) is Some {
        if dry_run {
            (rs, Tone::Warning, "DRY-RUN: Would remove '"@ + key + "' from "@ + l + " ("@ + input + ")"@)
        } else {
            (removed(rs, key, l).unwrap(), Tone::Success, "Removed '"@ + key + "' from "@ + l + " ("@
                + input + ")"@)
        }
    } else {
        (rs, Tone::Info, "Key '"@ + key + "' not found in "@ + l + " ("@ + input
            + "); nothing to remove"@)
    }
}

/// The entries other than those keyed `key`, in order.
pub open spec fn without_key(es: Seq<EntryView>, key: Seq<char>) -> Seq<EntryView>
    decreases es.len(),
{
    if es.len() == 0 {
        es
    } else if es.last().id == key {
        without_key(es.drop_last(), key)
    } else {
        without_key(es.drop_last(), key).push(es.last())
    }
}

/// Removing every entry keyed `key` from the only resource of the catalog.
pub open spec fn removal_single(
    rs: Seq<ResourceView>,
    input: Seq<char>,
    key: Seq<char>,
    dry_run: bool,
) -> Result<EditOutcome, Seq<char>> {
    if rs.len() != 1 {
        Err("Multiple languages present; specify --lang"@)
    } else {
        let next = if dry_run {
            rs
        } else {
            rs.update(
                0,
                ResourceView { metadata: rs[0].metadata, entries: without_key(rs[0].entries, key) },
            )
        };
        if find_key(rs[0].entries, key) is Some {
            if dry_run {
                Ok((next, Tone::Warning, "DRY-RUN: Would remove '"@ + key + "' ("@ + input + ")"@))
            } else {
                Ok((next, Tone::Success, "Removed '"@ + key + "' ("@ + input + ")"@))
            }
        } else {
            Ok((next, Tone::Info, "Key '"@ + key + "' not present ("@ + input + "); nothing to remove"@))
        }
    }
}

/// The text an update reports as the old value of an entry.
pub open spec fn shown_value(v: TranslationView) -> Seq<char> {
    match v {
        TranslationView::Empty => Seq::empty(),
        TranslationView::Singular(s) => s,
        TranslationView::Plural(id, _) => id,
    }
}

/// The catalog with the comment of the entry keyed `key` in the resource of
/// `lang` replaced, when a comment is given.
pub open spec fn recommented(
    rs: Seq<ResourceView>,
    key: Seq<char>,
    lang: Seq<char>,
    comment: Option<Seq<char>>,
) -> Seq<ResourceView> {
    match comment {
        None => rs,
        Some(c) => match find_language(rs, lang) {
            Some(i) => match find_key(rs[i].entries, key) {
                Some(j) => {
                    let e = rs[i].entries[j];
                    with_entry(
                        rs,
                        i,
                        j,
                        EntryView { id: e.id, value: e.value, comment: Some(c), status: e.status },
                    )
                },
                None => rs,
            },
            None => rs,
        },
    }
}

/// Setting `key` to `val` in the resource of language `lang`: an update of an
/// existing entry, or a new one.
pub open spec fn set_in(
    rs: Seq<ResourceView>,
    input: Seq<char>,
    lang: Seq<char>,
    key: Seq<char>,
    val: Seq<char>,
    comment: Option<Seq<char>>,
    status: Option<EntryStatus>,
    dry_run: bool,
) -> EditOutcome {
    match lookup(rs, key, lang) {
        Some(old_e) => if dry_run {
            (rs, Tone::Warning, "DRY-RUN: Would update '"@ + key + "' in "@ + lang + ": '"@
                + shown_value(old_e.value) + "' -> '"@ + val + "' ("@ + input + ")"@)
        } else {
            (
                recommented(
                    updated(rs, key, lang, TranslationView::Singular(val), status).unwrap(),
                    key,
                    lang,
                    comment,
                ),
                Tone::Success,
                "Updated '"@ + key + "' in "@ + lang + " ("@ + input + ")"@,
            )
        },
        None => if dry_run {
            (rs, Tone::Warning, "DRY-RUN: Would add '"@ + key + "' to "@ + lang + " with value '"@ + val
                + "' ("@ + input + ")"@)
        } else {
            (
                added(rs, key, lang, TranslationView::Singular(val), comment, status),
                Tone::Success,
                "Added '"@ + key + "' to "@ + lang + " ("@ + input + ")"@,
            )
        },
    }
}

/// What `edit set` does to a catalog read from `input`: it removes the key
/// when no value (or an empty one) is given, and sets it otherwise; a
/// dry run changes nothing and says what would happen.
pub open spec fn set_outcome(
    rs: Seq<ResourceView>,
    input: Seq<char>,
    lang: Option<Seq<char>>,
    key: Seq<char>,
    value: Option<Seq<char>>,
    comment: Option<Seq<char>>,
    status: Option<Seq<char>>,
    dry_run: bool,
) -> Result<EditOutcome, Seq<char>> {
    match edit_status(status) {
        Err(e) => Err(e),
        Ok(st) => if is_removal(value) {
            match lang {
                Some(l) => Ok(removal_in(rs, input, l, key, dry_run)),
                None => removal_single(rs, input, key, dry_run),
            }
        } else {
            match lang {
                Some(l) => Ok(set_in(rs, input, l, key, value.unwrap(), comment, st, dry_run)),
                None => if rs.len() == 1 {
                    Ok(set_in(rs, input, rs[0].metadata.language, key, value.unwrap(), comment, st, dry_run))
                } else {
                    Err("--lang is required for set on multi-language files ("@ + input + ")"@)
                },
            }
        },
    }
}

fn retain_other_keys(entries: &Vec<Entry>, key: &str) -> (r: Vec<Entry>)
    ensures
        entries_view(r@) == without_key(entries_view(entries@), key@),
{
    let ghost es = entries_view(entries@);
    let mut out: Vec<Entry> = Vec::new();
    let mut i: usize = 0;
    assert(es.take(0) =~= Seq::<EntryView>::empty());
    while i < entries.len()
        invariant
            i <= entries@.len(),
            es == entries_view(entries@),
            entries_view(out@) == without_key(es.take(i as int), key@),
        decreases entries.len() - i,
    {
        proof {
            assert(es.take(i + 1).drop_last() =~= es.take(i as int));
            assert(es.take(i + 1).last() == entries@[i as int]@);
        }
        if !str_eq(entries[i].id.as_str(), key) {
            let e = entries[i].copy();
            out.push(e);
            proof {
                assert(entries_view(out@) =~= without_key(es.take(i as int), key@).push(e@));
            }
        }
        i = i + 1;
    }
    assert(es.take(entries@.len() as int) =~= es);
    out
}

fn remove_in_language(codec: &mut Codec, input: &str, l: &str, key: &str, dry_run: bool) -> (r: (
    Tone,
    String,
))
    ensures
        final(codec)@ == removal_in(old(codec)@, input@, l@, key@, dry_run).0,
        r.0 == removal_in(old(codec)@, input@, l@, key@, dry_run).1,
        r.1@ == removal_in(old(codec)@, input@, l@, key@, dry_run).2,
{
    if codec.has_entry(key, l) {
        if dry_run {
            let mut m = String::from_str("DRY-RUN: Would remove '");
            m.append(key);
            m.append("' from ");
            m.append(l);
            m.append(" (");
            m.append(input);
            m.append(")");
            (Tone::Warning, m)
        } else {
            let _ = codec.remove_entry(key, l);
            let mut m = String::from_str("Removed '");
            m.append(key);
            m.append("' from ");
            m.append(l);
            m.append(" (");
            m.append(input);
            m.append(")");
            (Tone::Success, m)
        }
    } else {
        let mut m = String::from_str("Key '");
        m.append(key);
        m.append("' not found in ");
        m.append(l);
        m.append(" (");
        m.append(input);
        m.append("); nothing to remove");
        (Tone::Info, m)
    }
}

fn remove_in_single(codec: &mut Codec, input: &str, key: &str, dry_run: bool) -> (r: Result<
    (Tone, String),
    String,
>)
    ensures
        match removal_single(old(codec)@, input@, key@, dry_run) {
            Ok(o) => r matches Ok(p) && final(codec)@ == o.0 && p.0 == o.1 && p.1@ == o.2,
            Err(e) => r matches Err(m) && m@ == e && final(codec)@ == old(codec)@,
        },
{
    if codec.resources.len() != 1 {
        return Err(String::from_str("Multiple languages present; specify --lang"));
    }
    let present = key_position(&codec.resources[0].entries, key).is_some();
    if !dry_run {
        let mut res = codec.resources.remove(0);
        let kept = retain_other_keys(&res.entries, key);
        res.entries = kept;
        codec.resources.insert(0, res);
        proof {
            assert(codec@ =~= old(codec)@.update(
                0,
                ResourceView {
                    metadata: old(codec)@[0].metadata,
                    entries: without_key(old(codec)@[0].entries, key@),
                },
            ));
        }
    }
    if present {
        if dry_run {
            let mut m = String::from_str("DRY-RUN: Would remove '");
            m.append(key);
            m.append("' (");
            m.append(input);
            m.append(")");
            Ok((Tone::Warning, m))
        } else {
            let mut m = String::from_str("Removed '");
            m.append(key);
            m.append("' (");
            m.append(input);
            m.append(")");
            Ok((Tone::Success, m))
        }
    } else {
        let mut m = String::from_str("Key '");
        m.append(key);
        m.append("' not present (");
        m.append(input);
        m.append("); nothing to remove");
        Ok((Tone::Info, m))
    }
}

/// The text of a value as an update reports it.
pub fn shown_text(v: &Translation) -> (r: String)
    ensures
        r@ == shown_value(v@),
{
    match v {
        Translation::Empty => String::new(),
        Translation::Singular(s) => s.clone(),
        Translation::Plural(p) => p.id.clone(),
    }
}

fn set_in_language(
    codec: &mut Codec,
    input: &str,
    lang: &str,
    key: &str,
    val: &str,
    comment: &Option<String>,
    status: Option<EntryStatus>,
    dry_run: bool,
) -> (r: (Tone, String))
    ensures
        final(codec)@ == set_in(
            old(codec)@,
            input@,
            lang@,
            key@,
            val@,
            opt_seq(*comment),
            status,
            dry_run,
        ).0,
        r.0 == set_in(old(codec)@, input@, lang@, key@, val@, opt_seq(*comment), status, dry_run).1,
        r.1@ == set_in(old(codec)@, input@, lang@, key@, val@, opt_seq(*comment), status, dry_run).2,
{
    if codec.has_entry(key, lang) {
        if dry_run {
            let old_text = match codec.find_entry(key, lang) {
                Some(e) => shown_text(&e.value),
                None => String::new(),
            };
            let mut m = String::from_str("DRY-RUN: Would update '");
            m.append(key);
            m.append("' in ");
            m.append(lang);
            m.append(": '");
            m.append(old_text.as_str());
            m.append("' -> '");
            m.append(val);
            m.append("' (");
            m.append(input);
            m.append(")");
            (Tone::Warning, m)
        } else {
            let _ = codec.update_translation(
                key,
                lang,
                Translation::Singular(String::from_str(val)),
                status,
            );
            let ghost mid = codec@;
            if comment.is_some() {
                match language_position(&codec.resources, lang) {
                    Some(i) => {
                        proof {
                            crate::model::lemma_find_language_bounds(codec@, lang@);
                        }
                        match key_position(&codec.resources[i].entries, key) {
                            Some(j) => {
                                proof {
                                    crate::model::lemma_find_key_bounds(codec@[i as int].entries, key@);
                                }
                                let old_e = &codec.resources[i].entries[j];
                                let e = Entry {
                                    id: old_e.id.clone(),
                                    value: old_e.value.copy(),
                                    comment: crate::model::copy_opt_string(comment),
                                    status: old_e.status,
                                };
                                codec.set_entry(i, j, e);
                            },
                            None => {},
                        }
                    },
                    None => {},
                }
            }
            assert(codec@ == recommented(mid, key@, lang@, opt_seq(*comment)));
            let mut m = String::from_str("Updated '");
            m.append(key);
            m.append("' in ");
            m.append(lang);
            m.append(" (");
            m.append(input);
            m.append(")");
            (Tone::Success, m)
        }
    } else if dry_run {
        let mut m = String::from_str("DRY-RUN: Would add '");
        m.append(key);
        m.append("' to ");
        m.append(lang);
        m.append(" with value '");
        m.append(val);
        m.append("' (");
        m.append(input);
        m.append(")");
        (Tone::Warning, m)
    } else {
        let _ = codec.add_entry(
            key,
            lang,
            Translation::Singular(String::from_str(val)),
            crate::model::copy_opt_string(comment),
            status,
        );
        let mut m = String::from_str("Added '");
        m.append(key);
        m.append("' to ");
        m.append(lang);
        m.append(" (");
        m.append(input);
        m.append(")");
        (Tone::Success, m)
    }
}

/// Applies an `edit set` to a catalog read from `input`, and returns the line
/// that reports it; the catalog is left as it was when the edit is refused.
pub fn apply_set(
    codec: &mut Codec,
    input: &str,
    lang: &Option<String>,
    key: &str,
    value: &Option<String>,
    comment: &Option<String>,
    status: &Option<String>,
    dry_run: bool,
) -> (r: Result<(Tone, String), String>)
    ensures
        match set_outcome(
            old(codec)@,
            input@,
            opt_seq(*lang),
            key@,
            opt_seq(*value),
            opt_seq(*comment),
            opt_seq(*status),
            dry_run,
        ) {
            Ok(o) => r matches Ok(p) && final(codec)@ == o.0 && p.0 == o.1 && p.1@ == o.2,
            Err(e) => r matches Err(m) && m@ == e && final(codec)@ == old(codec)@,
        },
{
    let is_remove = match value {
        Some(v) => v.as_str().is_empty(),
        None => true,
    };
    let status_parsed = match parse_status_opt(status) {
        Ok(st) => st,
        Err(e) => {
            return Err(e);
        },
    };
    if is_remove {
        match lang {
            Some(l) => Ok(remove_in_language(codec, input, l.as_str(), key, dry_run)),
            None => remove_in_single(codec, input, key, dry_run),
        }
    } else {
        let val = match value {
            Some(v) => v.clone(),
            None => String::new(),
        };
        match lang {
            Some(l) => Ok(
                set_in_language(
                    codec,
                    input,
                    l.as_str(),
                    key,
                    val.as_str(),
                    comment,
                    status_parsed,
                    dry_run,
                ),
            ),
            None => if codec.resources.len() == 1 {
                let l = codec.resources[0].metadata.language.clone();
                Ok(
                    set_in_language(
                        codec,
                        input,
                        l.as_str(),
                        key,
                        val.as_str(),
                        comment,
                        status_parsed,
                        dry_run,
                    ),
                )
            } else {
                let mut m = String::from_str("--lang is required for set on multi-language files (");
                m.append(input);
                m.append(")");
                Err(m)
            },
        }
    }
}

/// What an `edit set` run refuses before it touches a file: no input at
/// all, or `--output` with several inputs.
pub open spec fn edit_inputs_check(n: nat, has_output: bool) -> Result<(), Seq<char>> {
    if n == 0 {
        Err("No input files matched the provided patterns"@)
    } else if n > 1 && has_output {
        Err("--output cannot be used with multiple input files"@)
    } else {
        Ok(())
    }
}

pub fn check_edit_inputs(expanded: &Vec<String>, output: &Option<String>) -> (r: Result<(), String>)
    ensures
        match edit_inputs_check(expanded@.len(), output is Some) {
            Ok(()) => r is Ok,
            Err(e) => r matches Err(m) && m@ == e,
        },
{
    if expanded.len() == 0 {
        Err(String::from_str("No input files matched the provided patterns"))
    } else if expanded.len() > 1 && output.is_some() {
        Err(String::from_str("--output cannot be used with multiple input files"))
    } else {
        Ok(())
    }
}

/// The line that closes a run over several files.
pub open spec fn summary_text(processed: nat, success: nat, failed: nat) -> Seq<char> {
    "Summary: processed "@ + decimal(processed) + "; success: "@ + decimal(success) + "; failed: "@
        + decimal(failed)
}

pub fn edit_summary(processed: usize, success: usize, failed: usize) -> (r: (Tone, String))
    ensures
        r.1@ == summary_text(processed as nat, success as nat, failed as nat),
        r.0 == (if failed == 0 {
            Tone::Success
        } else {
            Tone::Warning
        }),
{
    let mut m = String::from_str("Summary: processed ");
    let p = usize_to_string(processed);
    m.append(p.as_str());
    m.append("; success: ");
    let s = usize_to_string(success);
    m.append(s.as_str());
    m.append("; failed: ");
    let f = usize_to_string(failed);
    m.append(f.as_str());
    (if failed == 0 { Tone::Success } else { Tone::Warning }, m)
}

/// The counts of a run over several files so far.
pub struct EditTally {
    pub processed: usize,
    pub success: usize,
    pub failed: usize,
}

/// What a run does after a file.
pub enum EditNext {
    /// Go on with the next file.
    Next,
    /// Stop: print the summary line (the first string) and fail with the
    /// file's error (the second).
    Stop(String, String),
}

pub open spec fn missing_input_message(input: Seq<char>) -> Seq<char> {
    "Input file does not exist: "@ + input
}

/// Takes in an input named literally that is not a file: with
/// `continue_on_error` it counts as failed and the run goes on (`Ok` with the
/// message to report); otherwise the run fails at once with the message.
pub fn record_missing_input(tally: &mut EditTally, input: &str, continue_on_error: bool) -> (r: Result<
    String,
    String,
>)
    requires
        old(tally).failed < usize::MAX,
    ensures
        final(tally).processed == old(tally).processed,
        final(tally).success == old(tally).success,
        continue_on_error ==> (r matches Ok(m) && m@ == missing_input_message(input@) && final(tally).failed
            == old(tally).failed + 1),
        !continue_on_error ==> (r matches Err(m) && m@ == missing_input_message(input@) && final(tally).failed
            == old(tally).failed),
{
    let m = crate::text::cat("Input file does not exist: ", input);
    if continue_on_error {
        tally.failed = tally.failed + 1;
        Ok(m)
    } else {
        Err(m)
    }
}

/// Takes in one processed file: it counts as processed, and as a success or
/// a failure. A failure ends the run unless `continue_on_error`; the run then
/// prints its summary, with the counts so far, and fails with the file's
/// error.
pub fn record_edit_file(tally: &mut EditTally, outcome: Result<(), String>, continue_on_error: bool) -> (r:
    EditNext)
    requires
        old(tally).processed < usize::MAX,
        old(tally).success < usize::MAX,
        old(tally).failed < usize::MAX,
    ensures
        final(tally).processed == old(tally).processed + 1,
        match outcome {
            Ok(()) => final(tally).success == old(tally).success + 1 && final(tally).failed == old(tally).failed
                && r is Next,
            Err(m) => {
                &&& final(tally).success == old(tally).success
                &&& final(tally).failed == old(tally).failed + 1
                &&& continue_on_error ==> r is Next
                &&& !continue_on_error ==> (r matches EditNext::Stop(line, e) && e@ == m@ && line@ == summary_text(
                    final(tally).processed as nat,
                    final(tally).success as nat,
                    final(tally).failed as nat,
                ))
            },
        },
{
    tally.processed = tally.processed + 1;
    match outcome {
        Ok(()) => {
            tally.success = tally.success + 1;
            EditNext::Next
        },
        Err(m) => {
            tally.failed = tally.failed + 1;
            if continue_on_error {
                EditNext::Next
            } else {
                let (_, line) = edit_summary(tally.processed, tally.success, tally.failed);
                EditNext::Stop(line, m)
            }
        },
    }
}

/// How a run ends: `Ok` when no file failed.
pub open spec fn edit_run_result(failed: nat) -> Result<(), Seq<char>> {
    if failed == 0 {
        Ok(())
    } else {
        Err(decimal(failed) + " file(s) failed. See errors above."@)
    }
}

/// The extensions of the custom formats, which `edit` does not read.
pub open spec fn custom_extension(input: Seq<char>) -> bool {
    match crate::paths::path_extension(input) {
        Some(e) => e == "json"@ || e == "yaml"@ || e == "yml"@ || e == "langcodec"@,
        None => false,
    }
}

/// The error of an input that the reader refused: a custom-format file is
/// named as unsupported; otherwise the reader's error is passed on.
pub open spec fn edit_read_error(input: Seq<char>, error: Seq<char>) -> Seq<char> {
    if custom_extension(input) {
        "Edit currently supports standard formats (.strings, .xml, .xcstrings, .csv, .tsv)"@
    } else {
        "Failed to read input '"@ + input + "': "@ + error
    }
}

pub fn edit_read_failure(input: &str, error: &str) -> (r: String)
    ensures
        r@ == edit_read_error(input@, error@),
{
    let is_custom = match crate::paths::extension_of(input) {
        Some(e) => str_eq(e.as_str(), "json") || str_eq(e.as_str(), "yaml") || str_eq(e.as_str(), "yml")
            || str_eq(e.as_str(), "langcodec"),
        None => false,
    };
    if is_custom {
        String::from_str("Edit currently supports standard formats (.strings, .xml, .xcstrings, .csv, .tsv)")
    } else {
        let mut m = String::from_str("Failed to read input '");
        m.append(input);
        m.append("': ");
        m.append(error);
        m
    }
}

pub fn finish_edit_run(failed: usize) -> (r: Result<(), String>)
    ensures
        match edit_run_result(failed as nat) {
            Ok(()) => r is Ok,
            Err(e) => r matches Err(m) && m@ == e,
        },
{
    if failed == 0 {
        Ok(())
    } else {
        let mut m = usize_to_string(failed);
        m.append(" file(s) failed. See errors above.");
        Err(m)
    }
}

/// A dry run of `edit set` leaves the catalog as it was, whatever it does.
pub proof fn lemma_dry_run_keeps_catalog(
    rs: Seq<ResourceView>,
    input: Seq<char>,
    lang: Option<Seq<char>>,
    key: Seq<char>,
    value: Option<Seq<char>>,
    comment: Option<Seq<char>>,
    status: Option<Seq<char>>,
)
    ensures
        set_outcome(rs, input, lang, key, value, comment, status, true) matches Ok(o) ==> o.0 == rs,
{
}

/// Setting a key to a non-empty value in a language makes that value what
/// the catalog holds for the key in that language, with the comment and the
/// state given.
pub proof fn lemma_set_then_lookup(
    rs: Seq<ResourceView>,
    input: Seq<char>,
    lang: Seq<char>,
    key: Seq<char>,
    value: Seq<char>,
    comment: Option<Seq<char>>,
    status: Option<Seq<char>>,
)
    requires
        value.len() > 0,
        edit_status(status) is Ok,
    ensures
        set_outcome(rs, input, Some(lang), key, Some(value), comment, status, false) matches Ok(o)
            && lookup(o.0, key, lang) matches Some(e) && e.value == TranslationView::Singular(value)
            && (comment is Some ==> e.comment == comment) && (edit_status(status)->Ok_0 matches Some(
            st) ==> e.status == st),
{
    let st = edit_status(status)->Ok_0;
    let val = TranslationView::Singular(value);
    crate::model::lemma_find_language_bounds(rs, lang);
    match lookup(rs, key, lang) {
        Some(old_e) => {
            let i = find_language(rs, lang).unwrap();
            let j = find_key(rs[i].entries, key).unwrap();
            crate::model::lemma_find_key_bounds(rs[i].entries, key);
            let e1 = EntryView {
                id: old_e.id,
                value: val,
                comment: old_e.comment,
                status: match st {
                    Some(s) => s,
                    None => old_e.status,
                },
            };
            let rs1 = with_entry(rs, i, j, e1);
            assert(updated(rs, key, lang, val, st) == Some(rs1));
            crate::model::lemma_with_entry_lookup(rs, key, lang, i, j, e1);
            match comment {
                Some(c) => {
                    let e2 = EntryView { id: e1.id, value: e1.value, comment: Some(c), status: e1.status };
                    crate::model::lemma_with_entry_lookup(rs1, key, lang, i, j, e2);
                },
                None => {},
            }
        },
        None => {
            let e = EntryView {
                id: key,
                value: val,
                comment: comment,
                status: match st {
                    Some(s) => s,
                    None => EntryStatus::Translated,
                },
            };
            match find_language(rs, lang) {
                Some(i) => {
                    let rs1 = crate::model::with_appended(rs, i, e);
                    crate::model::lemma_find_language_same_languages(rs1, rs, lang);
                    crate::model::lemma_find_key_appended(rs[i].entries, e, key);
                    assert(rs1[i].entries == rs[i].entries.push(e));
                },
                None => {
                    let r = ResourceView {
                        metadata: crate::model::MetadataView {
                            language: lang,
                            domain: Seq::empty(),
                            custom: Seq::empty(),
                        },
                        entries: seq![e],
                    };
                    crate::model::lemma_find_language_appended(rs, r, lang);
                    assert(rs.push(r)[rs.len() as int] == r);
                    assert(find_key(seq![e], key) == Some(0int));
                },
            }
        },
    }
}

proof fn lemma_without_key_has_none(es: Seq<EntryView>, key: Seq<char>)
    ensures
        forall|k: int| 0 <= k < without_key(es, key).len() ==> (#[trigger] without_key(es, key)[k]).id
            != key,
    decreases es.len(),
{
    if es.len() > 0 {
        lemma_without_key_has_none(es.drop_last(), key);
    }
}

/// Removing a key from a single-language catalog (an empty value and no
/// language) leaves no entry of that key.
pub proof fn lemma_remove_single_then_absent(
    rs: Seq<ResourceView>,
    input: Seq<char>,
    key: Seq<char>,
    status: Option<Seq<char>>,
)
    requires
        rs.len() == 1,
        edit_status(status) is Ok,
    ensures
        set_outcome(rs, input, None, key, None, None, status, false) matches Ok(o) && find_key(
            o.0[0].entries,
            key,
        ) is None,
{
    lemma_without_key_has_none(rs[0].entries, key);
    crate::model::lemma_find_key_absent(without_key(rs[0].entries, key), key);
}

/// Removing a key from a language whose resource holds it once leaves the
/// key absent from that language.
pub proof fn lemma_remove_in_language_then_absent(
    rs: Seq<ResourceView>,
    input: Seq<char>,
    lang: Seq<char>,
    key: Seq<char>,
    status: Option<Seq<char>>,
)
    requires
        key_unique_in(rs, key, lang),
        edit_status(status) is Ok,
    ensures
        set_outcome(rs, input, Some(lang), key, None, None, status, false) matches Ok(o) && lookup(
            o.0,
            key,
            lang,
        ) is None,
{
    crate::model::lemma_find_language_bounds(rs, lang);
    match find_language(rs, lang) {
        Some(i) => {
            crate::model::lemma_find_key_bounds(rs[i].entries, key);
            match find_key(rs[i].entries, key) {
                Some(j) => {
                    let rs2 = crate::model::without_entry(rs, i, j);
                    crate::model::lemma_find_language_same_languages(rs2, rs, lang);
                    let es2 = rs2[i].entries;
                    assert forall|k: int| 0 <= k < es2.len() implies (#[trigger] es2[k]).id != key by {
                        if k < j {
                            assert(es2[k] == rs[i].entries[k]);
                        } else {
                            assert(es2[k] == rs[i].entries[k + 1]);
                            assert(rs[i].entries[j].id == key);
                        }
                    }
                    crate::model::lemma_find_key_absent(es2, key);
                },
                None => {},
            }
        },
        None => {},
    }
}

} // verus!

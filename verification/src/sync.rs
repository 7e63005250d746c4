//! The `sync` command: which paths it accepts, how languages are matched,
//! which resource a single-language output takes, and when a run fails by
//! policy.

use vstd::prelude::*;
use vstd::string::*;
use crate::convert::{FormatType, FormatView};
use crate::model::{Codec, Resource, ResourceView};
use crate::langid::{first_segment, first_segment_of};
use crate::text::{
    ascii_lower, ascii_lower_chars, chars_eq, chars_of, decimal, ends_with, replace_char,
    replace_chars, str_ends_with, string_from_chars, trim, trim_chars, usize_to_string,
};

verus! {

broadcast use vstd::string::group_string_axioms;

/// The options of the `sync` command.
#[derive(Debug, Clone)]
pub struct SyncOptions {
    pub source: String,
    pub target: String,
    pub output: Option<String>,
    pub lang: Option<String>,
    pub match_lang: Option<String>,
    pub report_json: Option<String>,
    pub fail_on_unmatched: bool,
    pub fail_on_ambiguous: bool,
    pub strict: bool,
    pub dry_run: bool,
}

/// A language tag as `sync` compares it: trimmed, `_` read as `-`, in
/// ASCII lowercase.
pub open spec fn sync_lang(lang: Seq<char>) -> Seq<char> {
    ascii_lower(replace_char(trim(lang), '_', '-'))
}

pub fn normalize_lang(lang: &str) -> (r: String)
    ensures
        r@ == sync_lang(lang@),
{
    let v = chars_of(lang);
    let t = trim_chars(v.as_slice());
    let u = replace_chars(t.as_slice(), '_', '-');
    let l = ascii_lower_chars(u.as_slice());
    string_from_chars(l.as_slice())
}

/// The part of a tag before its first `-`.
pub fn lang_base(lang: &str) -> (r: String)
    ensures
        r@ == first_segment(lang@, '-'),
{
    let v = chars_of(lang);
    let p = first_segment_of(v.as_slice(), '-');
    string_from_chars(p.as_slice())
}

/// A resource language matches a requested one: the same tag, or the same
/// base language.
pub open spec fn sync_lang_matches(resource_lang: Seq<char>, requested: Seq<char>) -> bool {
    let res = sync_lang(resource_lang);
    let req = sync_lang(requested);
    res == req || first_segment(res, '-') == first_segment(req, '-')
}

pub fn lang_matches(resource_lang: &str, requested_lang: &str) -> (r: bool)
    ensures
        r == sync_lang_matches(resource_lang@, requested_lang@),
{
    let res = normalize_lang(resource_lang);
    let req = normalize_lang(requested_lang);
    if crate::text::str_eq(res.as_str(), req.as_str()) {
        return true;
    }
    let a = lang_base(res.as_str());
    let b = lang_base(req.as_str());
    crate::text::str_eq(a.as_str(), b.as_str())
}

pub open spec fn opt_ends_with(o: Option<Seq<char>>, suffix: Seq<char>) -> bool {
    match o {
        Some(p) => ends_with(p, suffix),
        None => false,
    }
}

/// The paths `sync` refuses: a `.stringsdict` target or output, and any
/// `.xliff` path.
pub open spec fn sync_paths_check(source: Seq<char>, target: Seq<char>, output: Option<Seq<char>>) -> Result<
    (),
    Seq<char>,
> {
    if ends_with(target, ".stringsdict"@) || opt_ends_with(output, ".stringsdict"@) {
        Err(
            ".stringsdict cannot be a `sync` target or output because sync provenance is not representable. It may still be used as the source."@,
        )
    } else if ends_with(source, ".xliff"@) || ends_with(target, ".xliff"@) || opt_ends_with(
        output,
        ".xliff"@,
    ) {
        Err(
            ".xliff is not supported by `sync` in v1. Convert XLIFF into a standard project format first."@,
        )
    } else {
        Ok(())
    }
}

pub fn reject_xliff_sync_paths(source: &str, target: &str, output: Option<&String>) -> (r: Result<
    (),
    String,
>)
    ensures
        match sync_paths_check(source@, target@, crate::convert::opt_ref_seq(output)) {
            Ok(()) => r is Ok,
            Err(e) => r matches Err(m) && m@ == e,
        },
{
    let out_dict = match output {
        Some(p) => str_ends_with(p.as_str(), ".stringsdict"),
        None => false,
    };
    if str_ends_with(target, ".stringsdict") || out_dict {
        return Err(
            String::from_str(
                ".stringsdict cannot be a `sync` target or output because sync provenance is not representable. It may still be used as the source.",
            ),
        );
    }
    let out_xliff = match output {
        Some(p) => str_ends_with(p.as_str(), ".xliff"),
        None => false,
    };
    if str_ends_with(source, ".xliff") || str_ends_with(target, ".xliff") || out_xliff {
        return Err(
            String::from_str(
                ".xliff is not supported by `sync` in v1. Convert XLIFF into a standard project format first.",
            ),
        );
    }
    Ok(())
}

/// The position of the first resource whose language matches `lang`.
pub open spec fn matching_resource(rs: Seq<ResourceView>, lang: Seq<char>) -> Option<int>
    decreases rs.len(),
{
    if rs.len() == 0 {
        None
    } else {
        match matching_resource(rs.drop_last(), lang) {
            Some(i) => Some(i),
            None => if sync_lang_matches(rs.last().metadata.language, lang) {
                Some(rs.len() - 1)
            } else {
                None
            },
        }
    }
}

/// The resource a single-language output takes: the first one matching the
/// requested language; without a request, the only one.
pub open spec fn single_resource(rs: Seq<ResourceView>, lang: Option<Seq<char>>) -> Result<int, Seq<char>> {
    match lang {
        Some(l) => match matching_resource(rs, l) {
            Some(i) => Ok(i),
            None => Err("Language '"@ + l + "' not found in output resources"@),
        },
        None => if rs.len() == 1 {
            Ok(0)
        } else {
            Err("Multiple languages present; specify --lang"@)
        },
    }
}

proof fn lemma_matching_prefix(rs: Seq<ResourceView>, lang: Seq<char>, i: int)
    requires
        0 <= i < rs.len(),
        matching_resource(rs.take(i), lang) is None,
        sync_lang_matches(rs[i].metadata.language, lang),
    ensures
        matching_resource(rs, lang) == Some(i),
    decreases rs.len(),
{
    assert(rs.take(i + 1).drop_last() =~= rs.take(i));
    if rs.len() > i + 1 {
        assert(rs.drop_last().take(i) =~= rs.take(i));
        lemma_matching_prefix(rs.drop_last(), lang, i);
    } else {
        assert(rs.take(i + 1) =~= rs);
    }
}

pub fn pick_single_resource<'a>(codec: &'a Codec, lang: &Option<String>) -> (r: Result<
    &'a Resource,
    String,
>)
    ensures
        match single_resource(codec@, crate::model::opt_seq(*lang)) {
            Ok(i) => r matches Ok(res) && 0 <= i < codec@.len() && res@ == codec@[i],
            Err(e) => r matches Err(m) && m@ == e,
        },
{
    let ghost rs = codec@;
    match lang {
        Some(l) => {
            let mut i: usize = 0;
            assert(rs.take(0) =~= Seq::<ResourceView>::empty());
            while i < codec.resources.len()
                invariant
                    i <= codec.resources@.len(),
                    rs == codec@,
                    crate::model::opt_seq(*lang) == Some(l@),
                    matching_resource(rs.take(i as int), l@) is None,
                decreases codec.resources.len() - i,
            {
                assert(rs.take(i + 1).drop_last() =~= rs.take(i as int));
                if lang_matches(codec.resources[i].metadata.language.as_str(), l.as_str()) {
                    proof {
                        lemma_matching_prefix(rs, l@, i as int);
                    }
                    return Ok(&codec.resources[i]);
                }
                i = i + 1;
            }
            assert(rs.take(i as int) =~= rs);
            Err(crate::text::cat3("Language '", l.as_str(), "' not found in output resources"))
        },
        None => {
            if codec.resources.len() == 1 {
                Ok(&codec.resources[0])
            } else {
                Err(String::from_str("Multiple languages present; specify --lang"))
            }
        },
    }
}

/// How a synced catalog is written.
#[derive(Debug, Clone, Copy, PartialEq, Eq, Structural)]
pub enum SyncWrite {
    /// One resource, to a single-language file.
    SingleResource,
    /// All resources, to a multi-language file.
    AllResources,
}

/// How a synced catalog is written in each output format.
pub open spec fn sync_write_for(f: FormatView) -> Result<SyncWrite, Seq<char>> {
    match f {
        FormatView::Strings(_) | FormatView::AndroidStrings(_) => Ok(SyncWrite::SingleResource),
        FormatView::Stringsdict(_) => Err(
            ".stringsdict cannot be a `sync` target or output because sync provenance is not representable."@,
        ),
        FormatView::Xcstrings | FormatView::CSV | FormatView::TSV => Ok(SyncWrite::AllResources),
        FormatView::Xliff(_) => Err(
            ".xliff is not supported by `sync` in v1. Convert XLIFF into a standard project format first."@,
        ),
    }
}

pub fn sync_write_plan(format: &FormatType) -> (r: Result<SyncWrite, String>)
    ensures
        match sync_write_for(format@) {
            Ok(w) => r == Ok::<SyncWrite, String>(w),
            Err(e) => r matches Err(m) && m@ == e,
        },
{
    match format {
        FormatType::Strings(_) | FormatType::AndroidStrings(_) => Ok(SyncWrite::SingleResource),
        FormatType::Stringsdict(_) => Err(
            String::from_str(
                ".stringsdict cannot be a `sync` target or output because sync provenance is not representable.",
            ),
        ),
        FormatType::Xcstrings | FormatType::CSV | FormatType::TSV => Ok(SyncWrite::AllResources),
        FormatType::Xliff(_) => Err(
            String::from_str(
                ".xliff is not supported by `sync` in v1. Convert XLIFF into a standard project format first.",
            ),
        ),
    }
}

/// The counts a sync reports.
#[derive(Debug, Clone, Copy, PartialEq, Eq, Structural)]
pub struct SyncCounts {
    pub processed_languages: usize,
    pub total_entries: usize,
    pub updated: usize,
    pub unchanged: usize,
    pub fallback_matches: usize,
    pub skipped_unmatched: usize,
    pub skipped_missing_language: usize,
    pub skipped_ambiguous_fallback: usize,
    pub skipped_type_mismatch: usize,
}

/// A sync with a language filter that touched no language is refused.
pub fn check_language_processed(lang: &Option<String>, counts: &SyncCounts) -> (r: Result<(), String>)
    ensures
        match lang {
            Some(l) => counts.processed_languages == 0 ==> (r matches Err(m) && m@ == "Language '"@
                + l@ + "' not found in target file"@),
            None => true,
        },
        (lang is None || counts.processed_languages != 0) ==> r is Ok,
{
    match lang {
        Some(l) => if counts.processed_languages == 0 {
            Err(crate::text::cat3("Language '", l.as_str(), "' not found in target file"))
        } else {
            Ok(())
        },
        None => Ok(()),
    }
}

/// A sync fails by policy when unmatched entries (or ambiguous fallbacks)
/// were skipped and the options (or strict mode) ask to fail on them; the
/// refusal names the counts.
pub open spec fn sync_policy(opts: SyncOptions, c: SyncCounts) -> Result<(), Seq<char>> {
    let on_unmatched = opts.fail_on_unmatched || opts.strict;
    let on_ambiguous = opts.fail_on_ambiguous || opts.strict;
    let u = on_unmatched && c.skipped_unmatched > 0;
    let a = on_ambiguous && c.skipped_ambiguous_fallback > 0;
    if u || a {
        let parts = (if u {
            seq!["unmatched="@ + decimal(c.skipped_unmatched as nat)]
        } else {
            Seq::empty()
        }) + (if a {
            seq!["ambiguous="@ + decimal(c.skipped_ambiguous_fallback as nat)]
        } else {
            Seq::empty()
        });
        Err("Sync policy failure ("@ + crate::text::join(parts, ", "@) + ")"@)
    } else {
        Ok(())
    }
}

pub fn sync_policy_check(opts: &SyncOptions, counts: &SyncCounts) -> (r: Result<(), String>)
    ensures
        match sync_policy(*opts, *counts) {
            Ok(()) => r is Ok,
            Err(e) => r matches Err(m) && m@ == e,
        },
{
    let on_unmatched = opts.fail_on_unmatched || opts.strict;
    let on_ambiguous = opts.fail_on_ambiguous || opts.strict;
    let u = on_unmatched && counts.skipped_unmatched > 0;
    let a = on_ambiguous && counts.skipped_ambiguous_fallback > 0;
    if !(u || a) {
        return Ok(());
    }
    let mut parts: Vec<String> = Vec::new();
    if u {
        let mut p = String::from_str("unmatched=");
        p.append(usize_to_string(counts.skipped_unmatched).as_str());
        parts.push(p);
    }
    let ghost first = crate::text::strings_view(parts@);
    if a {
        let mut p = String::from_str("ambiguous=");
        p.append(usize_to_string(counts.skipped_ambiguous_fallback).as_str());
        parts.push(p);
    }
    assert(crate::text::strings_view(parts@) =~= (if u {
        seq!["unmatched="@ + decimal(counts.skipped_unmatched as nat)]
    } else {
        Seq::empty()
    }) + (if a {
        seq!["ambiguous="@ + decimal(counts.skipped_ambiguous_fallback as nat)]
    } else {
        Seq::empty()
    }));
    let mut e = String::from_str("Sync policy failure (");
    e.append(crate::text::join_strings(&parts, ", ").as_str());
    e.append(")");
    Err(e)
}

/// The lines of a plain sync report.
pub open spec fn sync_report_text(match_language: Seq<char>, c: SyncCounts) -> Seq<Seq<char>> {
    seq![
        "Sync match language: "@ + match_language,
        "Total target entries considered: "@ + decimal(c.total_entries as nat),
        "Updated: "@ + decimal(c.updated as nat),
        "Unchanged: "@ + decimal(c.unchanged as nat),
        "Fallback matches used: "@ + decimal(c.fallback_matches as nat),
        "Skipped (unmatched): "@ + decimal(c.skipped_unmatched as nat),
        "Skipped (missing source language value): "@ + decimal(c.skipped_missing_language as nat),
        "Skipped (ambiguous fallback): "@ + decimal(c.skipped_ambiguous_fallback as nat),
        "Skipped (type mismatch): "@ + decimal(c.skipped_type_mismatch as nat),
    ]
}

fn count_line(label: &str, n: usize) -> (r: String)
    ensures
        r@ == label@ + decimal(n as nat),
{
    let mut s = String::from_str(label);
    let d = usize_to_string(n);
    s.append(d.as_str());
    s
}

pub fn sync_report_lines(match_language: &str, counts: &SyncCounts) -> (r: Vec<String>)
    ensures
        crate::text::strings_view(r@) == sync_report_text(match_language@, *counts),
{
    let mut v: Vec<String> = Vec::new();
    v.push(crate::text::cat("Sync match language: ", match_language));
    v.push(count_line("Total target entries considered: ", counts.total_entries));
    v.push(count_line("Updated: ", counts.updated));
    v.push(count_line("Unchanged: ", counts.unchanged));
    v.push(count_line("Fallback matches used: ", counts.fallback_matches));
    v.push(count_line("Skipped (unmatched): ", counts.skipped_unmatched));
    v.push(count_line("Skipped (missing source language value): ", counts.skipped_missing_language));
    v.push(count_line("Skipped (ambiguous fallback): ", counts.skipped_ambiguous_fallback));
    v.push(count_line("Skipped (type mismatch): ", counts.skipped_type_mismatch));
    assert(crate::text::strings_view(v@) =~= sync_report_text(match_language@, *counts));
    v
}

/// Language matching in `sync` is reflexive and symmetric.
pub proof fn lemma_lang_matches_reflexive_symmetric(a: Seq<char>, b: Seq<char>)
    ensures
        sync_lang_matches(a, a),
        sync_lang_matches(a, b) == sync_lang_matches(b, a),
{
}

} // verus!

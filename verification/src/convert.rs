//! The `convert` command: the standard catalog formats, how an output format
//! is chosen, how the source language of an XLIFF file is found, and which
//! conversion a run attempts.

use vstd::prelude::*;
use vstd::string::*;
use crate::model::{opt_seq, pairs_view, Metadata, MetadataView, Resource, ResourceView};
use crate::order::{sorted_unique, sorted_unique_texts};
use crate::text::{
    ascii_lower, chars_of, ends_with, eq_ignore_case, eq_ignore_case_str, join, join_strings,
    str_ends_with, str_eq, string_from_chars, strings_view, trim, trim_chars, trim_lower,
};
use crate::translate::{custom_value, pair_lookup};

verus! {

broadcast use vstd::string::group_string_axioms;

/// A standard catalog format; a single-language format may carry its language.
#[derive(Debug, Clone)]
pub enum FormatType {
    Strings(Option<String>),
    AndroidStrings(Option<String>),
    Xcstrings,
    Xliff(Option<String>),
    CSV,
    TSV,
    Stringsdict(Option<String>),
}

pub enum FormatView {
    Strings(Option<Seq<char>>),
    AndroidStrings(Option<Seq<char>>),
    Xcstrings,
    Xliff(Option<Seq<char>>),
    CSV,
    TSV,
    Stringsdict(Option<Seq<char>>),
}

impl View for FormatType {
    type V = FormatView;

    open spec fn view(&self) -> FormatView {
        match self {
            FormatType::Strings(l) => FormatView::Strings(opt_seq(*l)),
            FormatType::AndroidStrings(l) => FormatView::AndroidStrings(opt_seq(*l)),
            FormatType::Xcstrings => FormatView::Xcstrings,
            FormatType::Xliff(l) => FormatView::Xliff(opt_seq(*l)),
            FormatType::CSV => FormatView::CSV,
            FormatType::TSV => FormatView::TSV,
            FormatType::Stringsdict(l) => FormatView::Stringsdict(opt_seq(*l)),
        }
    }
}

/// The standard format a format name stands for, read trimmed and without
/// regard to ASCII case.
pub open spec fn standard_format(name: Seq<char>) -> Option<FormatView> {
    let k = ascii_lower(trim(name));
    if k == "strings"@ {
        Some(FormatView::Strings(None))
    } else if k == "stringsdict"@ {
        Some(FormatView::Stringsdict(None))
    } else if k == "android"@ || k == "androidstrings"@ {
        Some(FormatView::AndroidStrings(None))
    } else if k == "xcstrings"@ {
        Some(FormatView::Xcstrings)
    } else if k == "xliff"@ {
        Some(FormatView::Xliff(None))
    } else if k == "csv"@ {
        Some(FormatView::CSV)
    } else if k == "tsv"@ {
        Some(FormatView::TSV)
    } else {
        None
    }
}

/// The name each format is known by on the command line.
pub open spec fn format_name(f: FormatView) -> Seq<char> {
    match f {
        FormatView::Strings(_) => "strings"@,
        FormatView::Stringsdict(_) => "stringsdict"@,
        FormatView::AndroidStrings(_) => "androidstrings"@,
        FormatView::Xcstrings => "xcstrings"@,
        FormatView::Xliff(_) => "xliff"@,
        FormatView::CSV => "csv"@,
        FormatView::TSV => "tsv"@,
    }
}

/// A format as named, with no language attached.
pub open spec fn bare_format(f: FormatView) -> FormatView {
    match f {
        FormatView::Strings(_) => FormatView::Strings(None),
        FormatView::Stringsdict(_) => FormatView::Stringsdict(None),
        FormatView::AndroidStrings(_) => FormatView::AndroidStrings(None),
        FormatView::Xliff(_) => FormatView::Xliff(None),
        _ => f,
    }
}

/// A standard format name, trimmed and lowercased, selects the format of that
/// name (or, for `android`, Android strings), with no language attached.
pub proof fn lemma_standard_format_named(name: Seq<char>)
    ensures
        standard_format(name) matches Some(f) ==> {
            &&& f == bare_format(f)
            &&& (ascii_lower(trim(name)) == format_name(f) || (ascii_lower(trim(name)) == "android"@
                && f == FormatView::AndroidStrings(None)))
        },
{
}

/// Two names select the same format only when they are the same name once
/// trimmed and lowercased, or both name Android strings.
pub proof fn lemma_standard_format_injective(a: Seq<char>, b: Seq<char>)
    requires
        standard_format(a) is Some,
        standard_format(a) == standard_format(b),
    ensures
        ascii_lower(trim(a)) == ascii_lower(trim(b)) || standard_format(a) == Some(
            FormatView::AndroidStrings(None),
        ),
{
    lemma_standard_format_named(a);
    lemma_standard_format_named(b);
}

proof fn lemma_lowercase_name(s: Seq<char>)
    requires
        forall|i: int| 0 <= i < s.len() ==> 'a' <= #[trigger] s[i] <= 'z',
    ensures
        ascii_lower(trim(s)) == s,
{
    if s.len() > 0 {
        assert('a' <= s[0] <= 'z');
        assert('a' <= s.last() <= 'z');
    }
    assert(crate::text::trim_start(s) == s);
    assert(crate::text::trim_end(s) == s);
    assert(ascii_lower(s) =~= s);
}

/// Every format's own name selects it.
pub proof fn lemma_format_name_selects(f: FormatView)
    ensures
        standard_format(format_name(f)) == Some(bare_format(f)),
{
    reveal_strlit("strings");
    reveal_strlit("stringsdict");
    reveal_strlit("android");
    reveal_strlit("androidstrings");
    reveal_strlit("xcstrings");
    reveal_strlit("xliff");
    reveal_strlit("csv");
    reveal_strlit("tsv");
    lemma_lowercase_name(format_name(f));
}

pub fn parse_standard_input_format(format: &str) -> (r: Option<FormatType>)
    ensures
        match r {
            Some(f) => standard_format(format@) == Some(f@),
            None => standard_format(format@) is None,
        },
        r matches Some(f) ==> ascii_lower(trim(format@)) == format_name(f@) || (ascii_lower(
            trim(format@),
        ) == "android"@ && f@ == FormatView::AndroidStrings(None)),
{
    let k = trim_lower(format);
    let ks = string_from_chars(k.as_slice());
    let k = ks.as_str();
    if str_eq(k, "strings") {
        Some(FormatType::Strings(None))
    } else if str_eq(k, "stringsdict") {
        Some(FormatType::Stringsdict(None))
    } else if str_eq(k, "android") || str_eq(k, "androidstrings") {
        Some(FormatType::AndroidStrings(None))
    } else if str_eq(k, "xcstrings") {
        Some(FormatType::Xcstrings)
    } else if str_eq(k, "xliff") {
        Some(FormatType::Xliff(None))
    } else if str_eq(k, "csv") {
        Some(FormatType::CSV)
    } else if str_eq(k, "tsv") {
        Some(FormatType::TSV)
    } else {
        None
    }
}

pub open spec fn unsupported_output_message(format: Seq<char>) -> Seq<char> {
    "Unsupported output format: '"@ + format
        + "'. Supported formats: strings, stringsdict, android, xcstrings, xliff, csv, tsv"@
}

pub fn parse_standard_output_format(format: &str) -> (r: Result<FormatType, String>)
    ensures
        match standard_format(format@) {
            Some(f) => r matches Ok(g) && g@ == f,
            None => r matches Err(e) && e@ == unsupported_output_message(format@),
        },
{
    match parse_standard_input_format(format) {
        Some(f) => Ok(f),
        None => Err(
            crate::text::cat3(
                "Unsupported output format: '",
                format,
                "'. Supported formats: strings, stringsdict, android, xcstrings, xliff, csv, tsv",
            ),
        ),
    }
}

/// A format of one language per file.
pub open spec fn single_language(f: FormatView) -> bool {
    f is Strings || f is Stringsdict || f is AndroidStrings
}

pub fn is_single_language_format(format: &FormatType) -> (r: bool)
    ensures
        r == single_language(format@),
{
    match format {
        FormatType::Strings(_) | FormatType::Stringsdict(_) | FormatType::AndroidStrings(_) => true,
        _ => false,
    }
}

/// A format that holds several languages in one file.
pub open spec fn multi_language(f: FormatView) -> bool {
    f is Xcstrings || f is CSV || f is TSV
}

pub fn is_multi_language_format(format: &FormatType) -> (r: bool)
    ensures
        r == multi_language(format@),
{
    match format {
        FormatType::Xcstrings | FormatType::CSV | FormatType::TSV => true,
        _ => false,
    }
}

/// A single-language format whose files need a language from outside (a path
/// or a request) to know what they hold.
pub fn format_requires_external_language(format: &FormatType) -> (r: bool)
    ensures
        r == single_language(format@),
{
    is_single_language_format(format)
}

/// The format with its language set, where it carries one.
pub open spec fn with_language(f: FormatView, l: Option<Seq<char>>) -> FormatView {
    match f {
        FormatView::Strings(_) => FormatView::Strings(l),
        FormatView::AndroidStrings(_) => FormatView::AndroidStrings(l),
        FormatView::Xliff(_) => FormatView::Xliff(l),
        FormatView::Stringsdict(_) => FormatView::Stringsdict(l),
        other => other,
    }
}

impl FormatType {
    pub fn with_language(self, language: Option<String>) -> (r: FormatType)
        ensures
            r@ == with_language(self@, opt_seq(language)),
    {
        match self {
            FormatType::Strings(_) => FormatType::Strings(language),
            FormatType::AndroidStrings(_) => FormatType::AndroidStrings(language),
            FormatType::Xliff(_) => FormatType::Xliff(language),
            FormatType::Stringsdict(_) => FormatType::Stringsdict(language),
            other => other,
        }
    }
}

/// The output is meant to be of the named format: by the format hint when
/// one is given, else by the output path's ending.
pub open spec fn wants_named(
    output: Seq<char>,
    hint: Option<Seq<char>>,
    extension: Seq<char>,
    format_name: Seq<char>,
) -> bool {
    match hint {
        None => ends_with(output, extension),
        Some(h) => eq_ignore_case(trim(h), format_name),
    }
}

pub fn wants_named_output(
    output: &str,
    output_format_hint: Option<&String>,
    extension: &str,
    format_name: &str,
) -> (r: bool)
    ensures
        r == wants_named(output@, opt_ref_seq(output_format_hint), extension@, format_name@),
{
    match output_format_hint {
        None => str_ends_with(output, extension),
        Some(hint) => {
            let v = chars_of(hint.as_str());
            let t = trim_chars(v.as_slice());
            eq_ignore_case_str(t.as_slice(), format_name)
        },
    }
}

pub open spec fn opt_ref_seq(o: Option<&String>) -> Option<Seq<char>> {
    match o {
        Some(s) => Some(s@),
        None => None,
    }
}

pub fn wants_xcstrings_output(output: &str, output_format_hint: Option<&String>) -> (r: bool)
    ensures
        r == wants_named(output@, opt_ref_seq(output_format_hint), ".xcstrings"@, "xcstrings"@),
{
    wants_named_output(output, output_format_hint, ".xcstrings", "xcstrings")
}

pub fn wants_xliff_output(output: &str, output_format_hint: Option<&String>) -> (r: bool)
    ensures
        r == wants_named(output@, opt_ref_seq(output_format_hint), ".xliff"@, "xliff"@),
{
    wants_named_output(output, output_format_hint, ".xliff", "xliff")
}

/// The trimmed, non-blank `source_language` values of the resources.
pub open spec fn metadata_sources(rs: Seq<ResourceView>) -> Seq<Seq<char>>
    decreases rs.len(),
{
    if rs.len() == 0 {
        Seq::empty()
    } else {
        let prev = metadata_sources(rs.drop_last());
        match pair_lookup(rs.last().metadata.custom, "source_language"@) {
            Some(v) => if trim(v).len() > 0 {
                prev.push(trim(v))
            } else {
                prev
            },
            None => prev,
        }
    }
}

/// The trimmed, non-blank languages of the resources.
pub open spec fn resource_languages(rs: Seq<ResourceView>) -> Seq<Seq<char>>
    decreases rs.len(),
{
    if rs.len() == 0 {
        Seq::empty()
    } else {
        let prev = resource_languages(rs.drop_last());
        let l = trim(rs.last().metadata.language);
        if l.len() > 0 {
            prev.push(l)
        } else {
            prev
        }
    }
}

/// The strings of `s` other than `a` and `b`.
pub open spec fn others(s: Seq<Seq<char>>, a: Seq<char>, b: Seq<char>) -> Seq<Seq<char>>
    decreases s.len(),
{
    if s.len() == 0 {
        s
    } else if s.last() != a && s.last() != b {
        others(s.drop_last(), a, b).push(s.last())
    } else {
        others(s.drop_last(), a, b)
    }
}

/// The source language an XLIFF output gets: the explicit one (trimmed);
/// else the one `source_language` value of the resources, when the
/// resources hold no language besides it and the target; else the one
/// language of the resources, or the one that is not the target.
pub open spec fn xliff_source_language(
    rs: Seq<ResourceView>,
    explicit: Option<Seq<char>>,
    target: Seq<char>,
) -> Result<Seq<char>, Seq<char>> {
    match explicit {
        Some(e) => if trim(e).len() == 0 {
            Err("--source-language cannot be empty for .xliff output"@)
        } else {
            Ok(trim(e))
        },
        None => {
            let ms = sorted_unique(metadata_sources(rs));
            let av = sorted_unique(resource_languages(rs));
            if ms.len() > 1 {
                Err(
                    "Conflicting source_language metadata found for .xliff output: "@ + join(
                        ms,
                        ", "@,
                    ) + ". Pass --source-language."@,
                )
            } else if ms.len() == 1 {
                if ms[0] != target && others(av, ms[0], target).len() == 0 {
                    Ok(ms[0])
                } else {
                    Err(
                        "source_language metadata '"@ + ms[0]
                            + "' is ambiguous for .xliff output with available languages ("@
                            + join(av, ", "@) + "). Pass --source-language."@,
                    )
                }
            } else if av.len() == 0 {
                Err("XLIFF output requires language metadata on the input resources"@)
            } else if av.len() == 1 {
                Ok(av[0])
            } else if others(av, target, target).len() == 1 {
                Ok(others(av, target, target)[0])
            } else {
                Err(
                    "Could not infer the XLIFF source language from available languages ("@
                        + join(av, ", "@) + "). Pass --source-language."@,
                )
            }
        },
    }
}

pub open spec fn resources_view(rs: Seq<Resource>) -> Seq<ResourceView> {
    rs.map_values(|r: Resource| r@)
}

fn others_of(v: &Vec<String>, a: &str, b: &str) -> (r: Vec<String>)
    ensures
        strings_view(r@) == others(strings_view(v@), a@, b@),
{
    let ghost sv = strings_view(v@);
    let mut r: Vec<String> = Vec::new();
    let mut i: usize = 0;
    assert(sv.take(0) =~= Seq::<Seq<char>>::empty());
    assert(strings_view(r@) =~= Seq::<Seq<char>>::empty());
    while i < v.len()
        invariant
            i <= v@.len(),
            sv == strings_view(v@),
            strings_view(r@) == others(sv.take(i as int), a@, b@),
        decreases v.len() - i,
    {
        assert(sv.take(i + 1).drop_last() =~= sv.take(i as int));
        let x = v[i].as_str();
        if !str_eq(x, a) && !str_eq(x, b) {
            let ghost before = strings_view(r@);
            r.push(v[i].clone());
            assert(strings_view(r@) =~= before.push(sv[i as int]));
        }
        i = i + 1;
    }
    assert(sv.take(i as int) =~= sv);
    r
}

fn trimmed(s: &str) -> (r: String)
    ensures
        r@ == trim(s@),
{
    let v = chars_of(s);
    let t = trim_chars(v.as_slice());
    string_from_chars(t.as_slice())
}

/// The language hint a standard reader gets: only a single-language format
/// takes one; it is trimmed, and a blank one is refused.
pub open spec fn reader_hint(format: FormatView, hint: Option<Seq<char>>) -> Result<
    Option<Seq<char>>,
    Seq<char>,
> {
    if !single_language(format) {
        Ok(None)
    } else {
        match hint {
            None => Ok(None),
            Some(h) => if trim(h).len() == 0 {
                Err("--source-language cannot be empty when used as an input language hint"@)
            } else {
                Ok(Some(trim(h)))
            },
        }
    }
}

pub fn reader_language_hint(format: &FormatType, hint: Option<&String>) -> (r: Result<
    Option<String>,
    String,
>)
    ensures
        match reader_hint(format@, opt_ref_seq(hint)) {
            Ok(h) => r matches Ok(x) && opt_seq(x) == h,
            Err(e) => r matches Err(m) && m@ == e,
        },
{
    if !is_single_language_format(format) {
        return Ok(None);
    }
    match hint {
        None => Ok(None),
        Some(h) => {
            let t = trimmed(h.as_str());
            if t.unicode_len() == 0 {
                Err(String::from_str("--source-language cannot be empty when used as an input language hint"))
            } else {
                Ok(Some(t))
            }
        },
    }
}

fn collect_xliff_languages(resources: &[Resource]) -> (r: (Vec<String>, Vec<String>))
    ensures
        strings_view(r.0@) == metadata_sources(resources_view(resources@)),
        strings_view(r.1@) == resource_languages(resources_view(resources@)),
{
    let ghost rv = resources_view(resources@);
    let mut meta: Vec<String> = Vec::new();
    let mut langs: Vec<String> = Vec::new();
    let mut i: usize = 0;
    assert(rv.take(0) =~= Seq::<ResourceView>::empty());
    assert(strings_view(meta@) =~= Seq::<Seq<char>>::empty());
    assert(strings_view(langs@) =~= Seq::<Seq<char>>::empty());
    while i < resources.len()
        invariant
            i <= resources@.len(),
            rv == resources_view(resources@),
            strings_view(meta@) == metadata_sources(rv.take(i as int)),
            strings_view(langs@) == resource_languages(rv.take(i as int)),
        decreases resources.len() - i,
    {
        assert(rv.take(i + 1).drop_last() =~= rv.take(i as int));
        assert(rv.take(i + 1).last() == resources@[i as int]@);
        let res = &resources[i];
        let ghost m0 = strings_view(meta@);
        let ghost l0 = strings_view(langs@);
        if let Some(v) = custom_value(&res.metadata.custom, "source_language") {
            let t = trimmed(v.as_str());
            if t.unicode_len() > 0 {
                meta.push(t);
                assert(strings_view(meta@) =~= m0.push(trim(v@)));
            }
        }
        let l = trimmed(res.metadata.language.as_str());
        if l.unicode_len() > 0 {
            langs.push(l);
            assert(strings_view(langs@) =~= l0.push(trim(res.metadata.language@)));
        }
        i = i + 1;
    }
    assert(rv.take(i as int) =~= rv);
    (meta, langs)
}

pub open spec fn text_result_view(r: Result<String, String>) -> Result<Seq<char>, Seq<char>> {
    match r {
        Ok(s) => Ok(s@),
        Err(e) => Err(e@),
    }
}

pub fn resolve_xliff_source_language(
    resources: &[Resource],
    explicit_source_language: Option<&String>,
    target_language: &str,
) -> (r: Result<String, String>)
    ensures
        text_result_view(r) == xliff_source_language(
            resources_view(resources@),
            opt_ref_seq(explicit_source_language),
            target_language@,
        ),
{
    if let Some(explicit) = explicit_source_language {
        let t = trimmed(explicit.as_str());
        if t.unicode_len() == 0 {
            return Err(String::from_str("--source-language cannot be empty for .xliff output"));
        }
        return Ok(t);
    }
    let (meta, langs) = collect_xliff_languages(resources);
    let ms = sorted_unique_texts(meta);
    let av = sorted_unique_texts(langs);
    if ms.len() > 1 {
        let mut e = String::from_str("Conflicting source_language metadata found for .xliff output: ");
        e.append(join_strings(&ms, ", ").as_str());
        e.append(". Pass --source-language.");
        return Err(e);
    }
    if ms.len() == 1 {
        let source = ms[0].as_str();
        let extras = others_of(&av, source, target_language);
        if !str_eq(source, target_language) && extras.len() == 0 {
            return Ok(ms[0].clone());
        }
        let mut e = String::from_str("source_language metadata '");
        e.append(source);
        e.append("' is ambiguous for .xliff output with available languages (");
        e.append(join_strings(&av, ", ").as_str());
        e.append("). Pass --source-language.");
        return Err(e);
    }
    if av.len() == 0 {
        return Err(String::from_str("XLIFF output requires language metadata on the input resources"));
    }
    if av.len() == 1 {
        return Ok(av[0].clone());
    }
    let non_target = others_of(&av, target_language, target_language);
    if non_target.len() == 1 {
        return Ok(non_target[0].clone());
    }
    let mut e = String::from_str("Could not infer the XLIFF source language from available languages (");
    e.append(join_strings(&av, ", ").as_str());
    e.append("). Pass --source-language.");
    Err(e)
}

/// The language a single-language format found from an output path carries.
pub open spec fn path_language_of(f: Option<FormatView>) -> Option<Seq<char>> {
    match f {
        Some(FormatView::Strings(Some(l))) => Some(l),
        Some(FormatView::Stringsdict(Some(l))) => Some(l),
        Some(FormatView::AndroidStrings(Some(l))) => Some(l),
        _ => None,
    }
}

pub open spec fn opt_format_view(f: Option<FormatType>) -> Option<FormatView> {
    match f {
        Some(x) => Some(x@),
        None => None,
    }
}

pub fn infer_output_path_language(path_format: &Option<FormatType>) -> (r: Option<String>)
    ensures
        opt_seq(r) == path_language_of(opt_format_view(*path_format)),
{
    match path_format {
        Some(FormatType::Strings(Some(l))) => Some(l.clone()),
        Some(FormatType::Stringsdict(Some(l))) => Some(l.clone()),
        Some(FormatType::AndroidStrings(Some(l))) => Some(l.clone()),
        _ => None,
    }
}

/// The output format of a conversion: the hinted format, else the format of
/// the output path (`path_format`, what its name and location show) or of its
/// extension; a language is set from `--output-lang` or the path, and a
/// language the format cannot carry, or a conflict between the two, is
/// refused.
pub open spec fn convert_output_format(
    output: Seq<char>,
    hint: Option<Seq<char>>,
    output_lang: Option<Seq<char>>,
    path_format: Option<FormatView>,
    extension_format: Option<FormatView>,
) -> Result<FormatView, Seq<char>> {
    let chosen = match hint {
        Some(h) => match standard_format(h) {
            Some(f) => Ok(f),
            None => Err(unsupported_output_message(h)),
        },
        None => match path_format {
            Some(f) => Ok(f),
            None => match extension_format {
                Some(f) => Ok(f),
                None => Err("Cannot infer output format from extension: "@ + output),
            },
        },
    };
    match chosen {
        Err(e) => Err(e),
        Ok(f) => {
            let pl = path_language_of(path_format);
            if single_language(f) {
                match output_lang {
                    Some(l) => match pl {
                        Some(p) => if p != l {
                            Err(
                                "--output-lang '"@ + l + "' conflicts with language '"@ + p
                                    + "' implied by output path '"@ + output + "'"@,
                            )
                        } else {
                            Ok(with_language(f, Some(l)))
                        },
                        None => Ok(with_language(f, Some(l))),
                    },
                    None => match pl {
                        Some(p) => Ok(with_language(f, Some(p))),
                        None => Ok(f),
                    },
                }
            } else if f is Xliff {
                match output_lang {
                    Some(l) => Ok(with_language(f, Some(l))),
                    None => Err(
                        ".xliff output requires --output-lang to select the target language"@,
                    ),
                }
            } else {
                match output_lang {
                    Some(l) => Err(
                        "--output-lang '"@ + l
                            + "' is only supported for .strings, .stringsdict, strings.xml, or .xliff output"@,
                    ),
                    None => Ok(f),
                }
            }
        },
    }
}

pub fn resolve_convert_output_format(
    output: &str,
    output_format_hint: Option<&String>,
    output_lang: Option<&String>,
    path_format: Option<FormatType>,
    extension_format: Option<FormatType>,
) -> (r: Result<FormatType, String>)
    ensures
        match convert_output_format(
            output@,
            opt_ref_seq(output_format_hint),
            opt_ref_seq(output_lang),
            opt_format_view(path_format),
            opt_format_view(extension_format),
        ) {
            Ok(f) => r matches Ok(g) && g@ == f,
            Err(e) => r matches Err(m) && m@ == e,
        },
{
    let path_language = infer_output_path_language(&path_format);
    let output_format = match output_format_hint {
        Some(hint) => match parse_standard_output_format(hint.as_str()) {
            Ok(f) => f,
            Err(e) => return Err(e),
        },
        None => match path_format {
            Some(f) => f,
            None => match extension_format {
                Some(f) => f,
                None => return Err(crate::text::cat("Cannot infer output format from extension: ", output)),
            },
        },
    };
    if is_single_language_format(&output_format) {
        match output_lang {
            Some(language) => {
                if let Some(p) = &path_language {
                    if !str_eq(p.as_str(), language.as_str()) {
                        let mut e = String::from_str("--output-lang '");
                        e.append(language.as_str());
                        e.append("' conflicts with language '");
                        e.append(p.as_str());
                        e.append("' implied by output path '");
                        e.append(output);
                        e.append("'");
                        return Err(e);
                    }
                }
                Ok(output_format.with_language(Some(language.clone())))
            },
            None => match path_language {
                Some(p) => Ok(output_format.with_language(Some(p))),
                None => Ok(output_format),
            },
        }
    } else if let FormatType::Xliff(_) = output_format {
        match output_lang {
            Some(language) => Ok(output_format.with_language(Some(language.clone()))),
            None => Err(String::from_str(".xliff output requires --output-lang to select the target language")),
        }
    } else {
        match output_lang {
            Some(language) => Err(
                crate::text::cat3(
                    "--output-lang '",
                    language.as_str(),
                    "' is only supported for .strings, .stringsdict, strings.xml, or .xliff output",
                ),
            ),
            None => Ok(output_format),
        }
    }
}

/// The options of the `convert` command.
#[derive(Debug, Clone)]
pub struct ConvertOptions {
    pub input_format: Option<String>,
    pub output_format: Option<String>,
    pub source_language: Option<String>,
    pub version: Option<String>,
    pub output_lang: Option<String>,
    pub exclude_lang: Vec<String>,
    pub include_lang: Vec<String>,
}

/// The conversion a `convert` run attempts.
#[derive(Debug, Clone, Copy, PartialEq, Eq, Structural)]
pub enum ConversionPlan {
    /// A `.stringsdict` input whose language neither the options nor its path give.
    RejectStringsdictWithoutLanguage,
    /// XLIFF output, with source and target languages chosen explicitly.
    Xliff,
    /// `--output-lang` with a `.langcodec` output.
    RejectLangcodecOutputLanguage,
    /// A conversion with an explicit output language.
    ExplicitOutputLanguage,
    /// `.xcstrings` output, with the metadata it needs filled in.
    Xcstrings,
    /// `.langcodec` output, with the language filters applied.
    Langcodec,
    /// A conversion with an explicit input or output format.
    AuthoritativeFormats,
    /// A single-language input read with the given source language.
    ResolvedStandardInput,
    /// Strict mode with both formats given.
    StrictExplicitFormats,
    /// Strict mode with a custom-format input.
    StrictCustomFormat,
    /// Strict mode with formats known from the extensions.
    StrictStandardFormats,
    /// Both paths have standard formats.
    StandardDetection,
    /// A JSON input: standard detection first, then the custom formats.
    JsonDetectionThenCustom,
    /// A custom-format input.
    CustomFormat,
    /// Both formats hinted.
    ExplicitHints,
    /// Nothing applies.
    NoStrategy,
}

/// The input ends in an extension of a custom format.
pub open spec fn custom_input(input: Seq<char>) -> bool {
    ends_with(input, ".json"@) || ends_with(input, ".yaml"@) || ends_with(input, ".yml"@)
        || ends_with(input, ".langcodec"@)
}

pub open spec fn blank_or_missing(o: Option<Seq<char>>) -> bool {
    match o {
        Some(l) => trim(l).len() == 0,
        None => true,
    }
}

/// Which conversion a run attempts, in the order the strategies are tried.
/// `inferred_input` is the format of the input path; `output_path_known`
/// whether the output path has a standard format; `input_language_known`
/// whether the input path shows the language of the resolved input format.
pub open spec fn conversion_plan(
    input: Seq<char>,
    output: Seq<char>,
    input_format: Option<Seq<char>>,
    output_format: Option<Seq<char>>,
    source_language: Option<Seq<char>>,
    output_lang: Option<Seq<char>>,
    strict: bool,
    inferred_input: Option<FormatView>,
    output_path_known: bool,
    input_language_known: bool,
) -> ConversionPlan {
    let resolved = match input_format {
        Some(f) => standard_format(f),
        None => inferred_input,
    };
    if resolved matches Some(FormatView::Stringsdict(_)) && blank_or_missing(source_language)
        && !input_language_known {
        ConversionPlan::RejectStringsdictWithoutLanguage
    } else if wants_named(output, output_format, ".xliff"@, "xliff"@) {
        ConversionPlan::Xliff
    } else if output_lang is Some {
        if output_format is None && ends_with(output, ".langcodec"@) {
            ConversionPlan::RejectLangcodecOutputLanguage
        } else {
            ConversionPlan::ExplicitOutputLanguage
        }
    } else if wants_named(output, output_format, ".xcstrings"@, "xcstrings"@) {
        ConversionPlan::Xcstrings
    } else if output_format is None && ends_with(output, ".langcodec"@) {
        ConversionPlan::Langcodec
    } else if input_format is Some || output_format is Some {
        ConversionPlan::AuthoritativeFormats
    } else if source_language is Some && (resolved matches Some(f) && single_language(f)) {
        ConversionPlan::ResolvedStandardInput
    } else if strict {
        if input_format is Some && output_format is Some {
            ConversionPlan::StrictExplicitFormats
        } else if custom_input(input) {
            ConversionPlan::StrictCustomFormat
        } else {
            ConversionPlan::StrictStandardFormats
        }
    } else if inferred_input is Some && output_path_known {
        ConversionPlan::StandardDetection
    } else if custom_input(input) {
        if ends_with(input, ".json"@) && input_format is None {
            ConversionPlan::JsonDetectionThenCustom
        } else {
            ConversionPlan::CustomFormat
        }
    } else if input_format is Some && output_format is Some {
        ConversionPlan::ExplicitHints
    } else {
        ConversionPlan::NoStrategy
    }
}

fn is_blank_or_missing(o: &Option<String>) -> (r: bool)
    ensures
        r == blank_or_missing(opt_seq(*o)),
{
    match o {
        Some(l) => trimmed(l.as_str()).unicode_len() == 0,
        None => true,
    }
}

/// Chooses the conversion a `convert` run attempts.
pub fn plan_conversion(
    input: &str,
    output: &str,
    options: &ConvertOptions,
    strict: bool,
    inferred_input: &Option<FormatType>,
    output_path_known: bool,
    input_language_known: bool,
) -> (r: ConversionPlan)
    ensures
        r == conversion_plan(
            input@,
            output@,
            opt_seq(options.input_format),
            opt_seq(options.output_format),
            opt_seq(options.source_language),
            opt_seq(options.output_lang),
            strict,
            opt_format_view(*inferred_input),
            output_path_known,
            input_language_known,
        ),
{
    let resolved: Option<FormatType> = match &options.input_format {
        Some(f) => parse_standard_input_format(f.as_str()),
        None => match inferred_input {
            Some(f) => Some(f.clone_format()),
            None => None,
        },
    };
    let is_stringsdict = match &resolved {
        Some(FormatType::Stringsdict(_)) => true,
        _ => false,
    };
    let resolved_single = match &resolved {
        Some(f) => is_single_language_format(f),
        None => false,
    };
    let langcodec_output = str_ends_with(output, ".langcodec");
    let custom = str_ends_with(input, ".json") || str_ends_with(input, ".yaml") || str_ends_with(
        input,
        ".yml",
    ) || str_ends_with(input, ".langcodec");
    if is_stringsdict && is_blank_or_missing(&options.source_language) && !input_language_known {
        ConversionPlan::RejectStringsdictWithoutLanguage
    } else if wants_xliff_output(output, options.output_format.as_ref()) {
        ConversionPlan::Xliff
    } else if options.output_lang.is_some() {
        if options.output_format.is_none() && langcodec_output {
            ConversionPlan::RejectLangcodecOutputLanguage
        } else {
            ConversionPlan::ExplicitOutputLanguage
        }
    } else if wants_xcstrings_output(output, options.output_format.as_ref()) {
        ConversionPlan::Xcstrings
    } else if options.output_format.is_none() && langcodec_output {
        ConversionPlan::Langcodec
    } else if options.input_format.is_some() || options.output_format.is_some() {
        ConversionPlan::AuthoritativeFormats
    } else if options.source_language.is_some() && resolved_single {
        ConversionPlan::ResolvedStandardInput
    } else if strict {
        if options.input_format.is_some() && options.output_format.is_some() {
            ConversionPlan::StrictExplicitFormats
        } else if custom {
            ConversionPlan::StrictCustomFormat
        } else {
            ConversionPlan::StrictStandardFormats
        }
    } else if inferred_input.is_some() && output_path_known {
        ConversionPlan::StandardDetection
    } else if custom {
        if str_ends_with(input, ".json") && options.input_format.is_none() {
            ConversionPlan::JsonDetectionThenCustom
        } else {
            ConversionPlan::CustomFormat
        }
    } else if options.input_format.is_some() && options.output_format.is_some() {
        ConversionPlan::ExplicitHints
    } else {
        ConversionPlan::NoStrategy
    }
}

/// What a run does after the standard detection of a JSON input succeeded:
/// the explicit hints when both formats are given, else nothing applies.
pub fn plan_after_json_detection(options: &ConvertOptions) -> (r: ConversionPlan)
    ensures
        r == (if options.input_format is Some && options.output_format is Some {
            ConversionPlan::ExplicitHints
        } else {
            ConversionPlan::NoStrategy
        }),
{
    if options.input_format.is_some() && options.output_format.is_some() {
        ConversionPlan::ExplicitHints
    } else {
        ConversionPlan::NoStrategy
    }
}

impl FormatType {
    /// A copy of the format.
    pub fn clone_format(&self) -> (r: FormatType)
        ensures
            r@ == self@,
    {
        match self {
            FormatType::Strings(l) => FormatType::Strings(crate::model::copy_opt_string(l)),
            FormatType::AndroidStrings(l) => FormatType::AndroidStrings(crate::model::copy_opt_string(l)),
            FormatType::Xcstrings => FormatType::Xcstrings,
            FormatType::Xliff(l) => FormatType::Xliff(crate::model::copy_opt_string(l)),
            FormatType::CSV => FormatType::CSV,
            FormatType::TSV => FormatType::TSV,
            FormatType::Stringsdict(l) => FormatType::Stringsdict(crate::model::copy_opt_string(l)),
        }
    }
}

/// The position of the first pair keyed `key`.
pub open spec fn pair_index(pairs: Seq<(Seq<char>, Seq<char>)>, key: Seq<char>) -> Option<int>
    decreases pairs.len(),
{
    if pairs.len() == 0 {
        None
    } else {
        match pair_index(pairs.drop_last(), key) {
            Some(i) => Some(i),
            None => if pairs.last().0 == key {
                Some(pairs.len() - 1)
            } else {
                None
            },
        }
    }
}

/// The pairs with `key` set to `value` (`HashMap::insert`): the pair keyed
/// `key` takes the value, or the pair is added.
pub open spec fn put_value(pairs: Seq<(Seq<char>, Seq<char>)>, key: Seq<char>, value: Seq<char>) -> Seq<
    (Seq<char>, Seq<char>),
> {
    match pair_index(pairs, key) {
        Some(i) => pairs.update(i, (key, value)),
        None => pairs.push((key, value)),
    }
}

proof fn lemma_pair_index_bounds(pairs: Seq<(Seq<char>, Seq<char>)>, key: Seq<char>)
    ensures
        pair_index(pairs, key) matches Some(i) ==> 0 <= i < pairs.len() && pairs[i].0 == key,
    decreases pairs.len(),
{
    if pairs.len() > 0 {
        lemma_pair_index_bounds(pairs.drop_last(), key);
    }
}

proof fn lemma_pair_index_prefix(pairs: Seq<(Seq<char>, Seq<char>)>, key: Seq<char>, i: int)
    requires
        0 <= i < pairs.len(),
        pair_index(pairs.take(i), key) is None,
        pairs[i].0 == key,
    ensures
        pair_index(pairs, key) == Some(i),
    decreases pairs.len(),
{
    assert(pairs.take(i + 1).drop_last() =~= pairs.take(i));
    if pairs.len() > i + 1 {
        assert(pairs.drop_last().take(i) =~= pairs.take(i));
        lemma_pair_index_prefix(pairs.drop_last(), key, i);
    } else {
        assert(pairs.take(i + 1) =~= pairs);
    }
}

/// Sets `key` to `value` among the pairs.
pub fn set_value(pairs: &mut Vec<(String, String)>, key: &str, value: &String)
    ensures
        pairs_view(final(pairs)@) == put_value(pairs_view(old(pairs)@), key@, value@),
{
    let ghost pv = pairs_view(pairs@);
    let mut i: usize = 0;
    while i < pairs.len()
        invariant
            i <= pairs@.len(),
            pv == pairs_view(pairs@),
            pv == pairs_view(old(pairs)@),
            pair_index(pv.take(i as int), key@) is None,
        decreases pairs.len() - i,
    {
        assert(pv.take(i + 1).drop_last() =~= pv.take(i as int));
        if str_eq(pairs[i].0.as_str(), key) {
            proof {
                lemma_pair_index_prefix(pv, key@, i as int);
            }
            pairs.set(i, (String::from_str(key), value.clone()));
            assert(pairs_view(pairs@) =~= pv.update(i as int, (key@, value@)));
            return;
        }
        i = i + 1;
    }
    assert(pv.take(i as int) =~= pv);
    pairs.push((String::from_str(key), value.clone()));
    assert(pairs_view(pairs@) =~= pv.push((key@, value@)));
}

/// The resources with `key` set to `value` in the metadata of each.
pub open spec fn with_custom_value(rs: Seq<ResourceView>, key: Seq<char>, value: Seq<char>) -> Seq<
    ResourceView,
> {
    rs.map_values(
        |r: ResourceView|
            ResourceView {
                metadata: MetadataView {
                    language: r.metadata.language,
                    domain: r.metadata.domain,
                    custom: put_value(r.metadata.custom, key, value),
                },
                entries: r.entries,
            },
    )
}

/// Sets `key` to `value` in the metadata of every resource.
pub fn set_custom_everywhere(resources: &mut Vec<Resource>, key: &str, value: &String)
    ensures
        resources_view(final(resources)@) == with_custom_value(
            resources_view(old(resources)@),
            key@,
            value@,
        ),
{
    let ghost target = with_custom_value(resources_view(old(resources)@), key@, value@);
    let n = resources.len();
    let mut i: usize = 0;
    while i < n
        invariant
            n == resources@.len(),
            n == old(resources)@.len(),
            i <= n,
            target == with_custom_value(resources_view(old(resources)@), key@, value@),
            forall|j: int| 0 <= j < i ==> #[trigger] resources@[j]@ == target[j],
            forall|j: int| i <= j < n ==> #[trigger] resources@[j] == old(resources)@[j],
        decreases n - i,
    {
        let ghost before = resources@;
        let mut res = resources.remove(i);
        assert(res == old(resources)@[i as int]);
        set_value(&mut res.metadata.custom, key, value);
        let ghost r1 = res@;
        resources.insert(i, res);
        assert(resources@ =~= before.update(i as int, res));
        assert(r1 == target[i as int]);
        assert forall|j: int| 0 <= j < i implies #[trigger] resources@[j]@ == target[j] by {
            assert(resources@[j] == before[j]);
        }
        i = i + 1;
    }
    assert(resources_view(resources@) =~= target);
}

/// The source language and version an `.xcstrings` output gets: the explicit
/// source language when not blank, else that of the first resource when not
/// blank, else `en`; the explicit version, else that of the first resource,
/// else `1.0`.
pub open spec fn xcstrings_metadata(
    rs: Seq<ResourceView>,
    source_language: Option<Seq<char>>,
    version: Option<Seq<char>>,
) -> (Seq<char>, Seq<char>) {
    let first_meta = |key: Seq<char>|
        if rs.len() > 0 {
            pair_lookup(rs[0].metadata.custom, key)
        } else {
            None
        };
    let sl = match source_language {
        Some(s) if trim(s).len() > 0 => s,
        _ => match first_meta("source_language"@) {
            Some(v) if trim(v).len() > 0 => v,
            _ => "en"@,
        },
    };
    let ver = match version {
        Some(v) => v,
        None => match first_meta("version"@) {
            Some(v) => v,
            None => "1.0"@,
        },
    };
    (sl, ver)
}

/// Fills in the metadata an `.xcstrings` output needs, on every resource.
pub fn apply_xcstrings_metadata(resources: &mut Vec<Resource>, options: &ConvertOptions)
    ensures
        ({
            let (sl, ver) = xcstrings_metadata(
                resources_view(old(resources)@),
                opt_seq(options.source_language),
                opt_seq(options.version),
            );
            resources_view(final(resources)@) == with_custom_value(
                with_custom_value(resources_view(old(resources)@), "source_language"@, sl),
                "version"@,
                ver,
            )
        }),
{
    let explicit = match &options.source_language {
        Some(s) => if trimmed(s.as_str()).unicode_len() > 0 {
            Some(s.clone())
        } else {
            None
        },
        None => None,
    };
    let source_language = match explicit {
        Some(s) => s,
        None => {
            let from_first = if resources.len() > 0 {
                match custom_value(&resources[0].metadata.custom, "source_language") {
                    Some(v) => if trimmed(v.as_str()).unicode_len() > 0 {
                        Some(v)
                    } else {
                        None
                    },
                    None => None,
                }
            } else {
                None
            };
            match from_first {
                Some(v) => v,
                None => String::from_str("en"),
            }
        },
    };
    let version = match &options.version {
        Some(v) => v.clone(),
        None => {
            let from_first = if resources.len() > 0 {
                custom_value(&resources[0].metadata.custom, "version")
            } else {
                None
            };
            match from_first {
                Some(v) => v,
                None => String::from_str("1.0"),
            }
        },
    };
    set_custom_everywhere(resources, "source_language", &source_language);
    set_custom_everywhere(resources, "version", &version);
}

/// A resource is kept by the language filters: it is among the included
/// languages when any are given, and not among the excluded ones.
pub open spec fn kept_by_filters(
    lang: Seq<char>,
    wanted: Seq<Seq<char>>,
    exclude: Seq<Seq<char>>,
) -> bool {
    (wanted.len() == 0 || wanted.contains(lang)) && (exclude.len() == 0 || !exclude.contains(
        lang,
    ))
}

pub open spec fn filtered_resources(
    rs: Seq<ResourceView>,
    wanted: Seq<Seq<char>>,
    exclude: Seq<Seq<char>>,
) -> Seq<ResourceView>
    decreases rs.len(),
{
    if rs.len() == 0 {
        rs
    } else if kept_by_filters(rs.last().metadata.language, wanted, exclude) {
        filtered_resources(rs.drop_last(), wanted, exclude).push(rs.last())
    } else {
        filtered_resources(rs.drop_last(), wanted, exclude)
    }
}

fn listed(list: &Vec<String>, s: &String) -> (r: bool)
    ensures
        r == strings_view(list@).contains(s@),
{
    let mut j: usize = 0;
    while j < list.len()
        invariant
            j <= list@.len(),
            forall|k: int| 0 <= k < j ==> (#[trigger] list@[k])@ != s@,
        decreases list.len() - j,
    {
        if str_eq(list[j].as_str(), s.as_str()) {
            assert(strings_view(list@)[j as int] == s@);
            return true;
        }
        j = j + 1;
    }
    assert forall|k: int| 0 <= k < strings_view(list@).len() implies #[trigger] strings_view(
        list@,
    )[k] != s@ by {
        assert(strings_view(list@)[k] == list@[k]@);
    }
    false
}

/// The resources the language filters keep, in order.
pub fn filter_resources_by_language(resources: Vec<Resource>, options: &ConvertOptions) -> (r: Vec<
    Resource,
>)
    ensures
        resources_view(r@) == filtered_resources(
            resources_view(resources@),
            strings_view(options.include_lang@),
            strings_view(options.exclude_lang@),
        ),
{
    let ghost rv = resources_view(resources@);
    let ghost inc = strings_view(options.include_lang@);
    let ghost exc = strings_view(options.exclude_lang@);
    let mut r: Vec<Resource> = Vec::new();
    let mut i: usize = 0;
    assert(rv.take(0) =~= Seq::<ResourceView>::empty());
    assert(resources_view(r@) =~= Seq::<ResourceView>::empty());
    while i < resources.len()
        invariant
            i <= resources@.len(),
            rv == resources_view(resources@),
            inc == strings_view(options.include_lang@),
            exc == strings_view(options.exclude_lang@),
            resources_view(r@) == filtered_resources(rv.take(i as int), inc, exc),
        decreases resources.len() - i,
    {
        assert(rv.take(i + 1).drop_last() =~= rv.take(i as int));
        let res = &resources[i];
        let lang = &res.metadata.language;
        let keep = (options.include_lang.len() == 0 || listed(&options.include_lang, lang)) && (
        options.exclude_lang.len() == 0 || !listed(&options.exclude_lang, lang));
        if keep {
            let ghost before = resources_view(r@);
            r.push(res.copy());
            assert(resources_view(r@) =~= before.push(rv[i as int]));
        }
        i = i + 1;
    }
    assert(rv.take(i as int) =~= rv);
    r
}

/// How a run names its language filters: empty without filters, else
/// ` with language filtering (including: …, excluding: …)`.
pub open spec fn filter_description(wanted: Seq<Seq<char>>, exclude: Seq<Seq<char>>) -> Seq<char> {
    if wanted.len() == 0 && exclude.len() == 0 {
        Seq::empty()
    } else {
        let inc_part = if wanted.len() > 0 {
            seq!["including: "@ + join(wanted, ", "@)]
        } else {
            Seq::empty()
        };
        let exc_part = if exclude.len() > 0 {
            seq!["excluding: "@ + join(exclude, ", "@)]
        } else {
            Seq::empty()
        };
        " with language filtering ("@ + join(inc_part + exc_part, ", "@) + ")"@
    }
}

pub fn language_filter_message(options: &ConvertOptions) -> (r: String)
    ensures
        r@ == filter_description(
            strings_view(options.include_lang@),
            strings_view(options.exclude_lang@),
        ),
{
    if options.include_lang.len() == 0 && options.exclude_lang.len() == 0 {
        return String::new();
    }
    let mut parts: Vec<String> = Vec::new();
    if options.include_lang.len() > 0 {
        let mut p = String::from_str("including: ");
        p.append(join_strings(&options.include_lang, ", ").as_str());
        parts.push(p);
    }
    let ghost first = strings_view(parts@);
    if options.exclude_lang.len() > 0 {
        let mut p = String::from_str("excluding: ");
        p.append(join_strings(&options.exclude_lang, ", ").as_str());
        parts.push(p);
    }
    let ghost inc = strings_view(options.include_lang@);
    let ghost exc = strings_view(options.exclude_lang@);
    assert(strings_view(parts@) =~= (if inc.len() > 0 {
        seq!["including: "@ + join(inc, ", "@)]
    } else {
        Seq::empty()
    }) + (if exc.len() > 0 {
        seq!["excluding: "@ + join(exc, ", "@)]
    } else {
        Seq::empty()
    }));
    let mut r = String::from_str(" with language filtering (");
    r.append(join_strings(&parts, ", ").as_str());
    r.append(")");
    r
}


/// The lines printed when no conversion strategy worked: what was tried
/// (the custom-format attempt only for a custom-format input), and the
/// supported formats.
pub open spec fn strategy_lines(input: Seq<char>) -> Seq<Seq<char>> {
    (if ends_with(input, ".json"@) {
        seq!["2. Custom JSON format conversion"@]
    } else {
        Seq::empty()
    }) + (if ends_with(input, ".yaml"@) || ends_with(input, ".yml"@) {
        seq!["2. Custom YAML format conversion"@]
    } else {
        Seq::empty()
    }) + (if ends_with(input, ".langcodec"@) {
        seq!["2. Custom langcodec Resource array format conversion"@]
    } else {
        Seq::empty()
    })
}

pub open spec fn supported_formats_lines() -> Seq<Seq<char>> {
    seq![
        "Supported input formats:"@,
        "- .strings (Apple strings files)"@,
        "- .stringsdict (Apple plural strings files)"@,
        "- .xml (Android strings files)"@,
        "- .xcstrings (Apple xcstrings files)"@,
        "- .xliff (Apple/Xcode XLIFF 1.2 files)"@,
        "- .csv (CSV files)"@,
        "- .tsv (TSV files)"@,
        "- .langcodec (Resource JSON array)"@,
        "- .json (JSON key-value pairs or Resource format)"@,
        "- .yaml/.yml (YAML language map format)"@,
        ""@,
        "Supported output formats:"@,
        "- .strings (Apple strings files)"@,
        "- .stringsdict (Apple plural strings files)"@,
        "- .xml (Android strings files)"@,
        "- .xcstrings (Apple xcstrings files)"@,
        "- .xliff (Apple/Xcode XLIFF 1.2 files)"@,
        "- .csv (CSV files)"@,
        "- .tsv (TSV files)"@,
        "- .langcodec (Resource JSON array)"@,
        ""@,
        "For JSON files, the command will try both standard Resource format and key-value pairs."@,
        "For YAML files, the command will try YAML language map format."@,
    ]
}

pub open spec fn conversion_error_text(input: Seq<char>, output: Seq<char>) -> Seq<Seq<char>> {
    seq![
        "Error: Could not convert '"@ + input + "' to '"@ + output + "'"@,
        ""@,
        "Tried the following strategies:"@,
        "1. Standard format detection from file extensions"@,
    ] + strategy_lines(input) + seq![""@] + supported_formats_lines() + seq![
        "Custom formats: "@ + crate::formats::supported_custom_formats_text(),
    ]
}

fn push_text(lines: &mut Vec<String>, s: &str)
    ensures
        strings_view(final(lines)@) == strings_view(old(lines)@).push(s@),
{
    lines.push(String::from_str(s));
    assert(strings_view(lines@) =~= strings_view(old(lines)@).push(s@));
}

fn supported_formats(lines: &mut Vec<String>)
    ensures
        strings_view(final(lines)@) == strings_view(old(lines)@) + supported_formats_lines(),
{
    let ghost start = strings_view(lines@);
    push_text(lines, "Supported input formats:");
    push_text(lines, "- .strings (Apple strings files)");
    push_text(lines, "- .stringsdict (Apple plural strings files)");
    push_text(lines, "- .xml (Android strings files)");
    push_text(lines, "- .xcstrings (Apple xcstrings files)");
    push_text(lines, "- .xliff (Apple/Xcode XLIFF 1.2 files)");
    push_text(lines, "- .csv (CSV files)");
    push_text(lines, "- .tsv (TSV files)");
    push_text(lines, "- .langcodec (Resource JSON array)");
    push_text(lines, "- .json (JSON key-value pairs or Resource format)");
    push_text(lines, "- .yaml/.yml (YAML language map format)");
    push_text(lines, "");
    push_text(lines, "Supported output formats:");
    push_text(lines, "- .strings (Apple strings files)");
    push_text(lines, "- .stringsdict (Apple plural strings files)");
    push_text(lines, "- .xml (Android strings files)");
    push_text(lines, "- .xcstrings (Apple xcstrings files)");
    push_text(lines, "- .xliff (Apple/Xcode XLIFF 1.2 files)");
    push_text(lines, "- .csv (CSV files)");
    push_text(lines, "- .tsv (TSV files)");
    push_text(lines, "- .langcodec (Resource JSON array)");
    push_text(lines, "");
    push_text(lines, "For JSON files, the command will try both standard Resource format and key-value pairs.");
    push_text(lines, "For YAML files, the command will try YAML language map format.");
    assert(strings_view(lines@) =~= start + supported_formats_lines());
}

/// The lines that explain a failed conversion.
pub fn conversion_error_lines(input: &str, output: &str) -> (r: Vec<String>)
    ensures
        strings_view(r@) == conversion_error_text(input@, output@),
{
    let mut lines: Vec<String> = Vec::new();
    let mut first = String::from_str("Error: Could not convert '");
    first.append(input);
    first.append("' to '");
    first.append(output);
    first.append("'");
    lines.push(first);
    push_text(&mut lines, "");
    push_text(&mut lines, "Tried the following strategies:");
    push_text(&mut lines, "1. Standard format detection from file extensions");
    let ghost head = strings_view(lines@);
    if str_ends_with(input, ".json") {
        push_text(&mut lines, "2. Custom JSON format conversion");
    }
    if str_ends_with(input, ".yaml") || str_ends_with(input, ".yml") {
        push_text(&mut lines, "2. Custom YAML format conversion");
    }
    if str_ends_with(input, ".langcodec") {
        push_text(&mut lines, "2. Custom langcodec Resource array format conversion");
    }
    assert(strings_view(lines@) =~= head + strategy_lines(input@));
    push_text(&mut lines, "");
    supported_formats(&mut lines);
    let mut last = String::from_str("Custom formats: ");
    last.append(crate::formats::get_supported_custom_formats());
    let ghost before = strings_view(lines@);
    lines.push(last);
    assert(strings_view(lines@) =~= before.push(last@));
    assert(strings_view(lines@) =~= conversion_error_text(input@, output@));
    lines
}

/// How an input file is read.
pub enum InputRead {
    /// With a standard reader of this format; `true` when the format was
    /// named explicitly.
    Standard(FormatType, bool),
    /// As this custom format, named explicitly: the path's extension is not
    /// looked at.
    NamedCustom(crate::formats::CustomFormat),
    /// As a custom-format file: its extension is checked and its format
    /// detected from its content.
    DetectCustom,
}

pub enum InputReadView {
    Standard(FormatView, bool),
    NamedCustom(crate::formats::CustomFormat),
    DetectCustom,
}

impl View for InputRead {
    type V = InputReadView;

    open spec fn view(&self) -> InputReadView {
        match self {
            InputRead::Standard(f, e) => InputReadView::Standard(f@, *e),
            InputRead::NamedCustom(c) => InputReadView::NamedCustom(*c),
            InputRead::DetectCustom => InputReadView::DetectCustom,
        }
    }
}

/// The extensions that strict mode reads with a standard reader.
pub open spec fn standard_extension(input: Seq<char>) -> bool {
    ends_with(input, ".strings"@) || ends_with(input, ".stringsdict"@) || ends_with(input, ".xml"@) || ends_with(input, ".xcstrings"@) || ends_with(input, ".xliff"@) || ends_with(input, ".csv"@) || ends_with(input, ".tsv"@)
}

pub open spec fn unsupported_input_message(input: Seq<char>) -> Seq<char> {
    "Unsupported input format or file extension: '"@ + input + "'. Supported formats: .strings, .stringsdict, .xml, .xcstrings, .xliff, .csv, .tsv, .json, .yaml, .yml, .langcodec"@
}

/// How an input is read. An explicit format is authoritative: a standard one
/// is read as such, a custom one as that custom format (an unknown name is
/// refused). Without one, the format the path names (`inferred`) is used; in
/// strict mode only for the standard extensions. A custom-format path is
/// detected from its content; anything else is refused.
pub open spec fn input_read(
    input: Seq<char>,
    hint: Option<Seq<char>>,
    strict: bool,
    inferred: Option<FormatView>,
) -> Result<InputReadView, Seq<char>> {
    match hint {
        Some(h) => match standard_format(h) {
            Some(f) => Ok(InputReadView::Standard(f, true)),
            None => match crate::formats::custom_format_from_key(crate::formats::format_key(h)) {
                Some(c) => Ok(InputReadView::NamedCustom(c)),
                None => Err(crate::formats::unknown_custom_format_message(h)),
            },
        },
        None => match inferred {
            Some(f) if !strict || standard_extension(input) => Ok(InputReadView::Standard(f, false)),
            _ => if custom_input(input) {
                Ok(InputReadView::DetectCustom)
            } else {
                Err(unsupported_input_message(input))
            },
        },
    }
}

pub fn plan_input_read(
    input: &str,
    input_format: Option<&String>,
    strict: bool,
    inferred: &Option<FormatType>,
) -> (r: Result<InputRead, String>)
    ensures
        match input_read(input@, opt_ref_seq(input_format), strict, opt_format_view(*inferred)) {
            Ok(p) => r matches Ok(q) && q@ == p,
            Err(e) => r matches Err(m) && m@ == e,
        },
{
    if let Some(h) = input_format {
        if let Some(f) = parse_standard_input_format(h.as_str()) {
            return Ok(InputRead::Standard(f, true));
        }
        return match crate::formats::parse_custom_format(h.as_str()) {
            Ok(c) => Ok(InputRead::NamedCustom(c)),
            Err(e) => Err(e),
        };
    }
    let standard_ext = str_ends_with(input, ".strings") || str_ends_with(input, ".stringsdict") || str_ends_with(input, ".xml") || str_ends_with(input, ".xcstrings") || str_ends_with(input, ".xliff") || str_ends_with(input, ".csv") || str_ends_with(input, ".tsv");
    if let Some(f) = inferred {
        if !strict || standard_ext {
            return Ok(InputRead::Standard(f.clone_format(), false));
        }
    }
    if str_ends_with(input, ".json") || str_ends_with(input, ".yaml") || str_ends_with(input, ".yml")
        || str_ends_with(input, ".langcodec") {
        Ok(InputRead::DetectCustom)
    } else {
        Err(crate::text::cat3("Unsupported input format or file extension: '", input, "'. Supported formats: .strings, .stringsdict, .xml, .xcstrings, .xliff, .csv, .tsv, .json, .yaml, .yml, .langcodec"))
    }
}

/// What an input whose path gives no language is refused with, when the plan
/// refuses the conversion.
pub open spec fn stringsdict_language_message(input: Seq<char>) -> Seq<char> {
    "Could not infer the input language for '"@ + input
        + "'. Pass --source-language <LANG> or place the .stringsdict file under a <LANG>.lproj directory."@
}

pub open spec fn langcodec_output_language_message(lang: Seq<char>) -> Seq<char> {
    "--output-lang '"@ + lang + "' is not supported for .langcodec output. Use --include-lang instead."@
}

/// The error a plan that refuses the conversion reports; `None` for a plan
/// that converts (and for `NoStrategy`, which reports
/// `conversion_error_lines`).
pub open spec fn plan_refusal(plan: ConversionPlan, input: Seq<char>, output_lang: Option<Seq<char>>) -> Option<
    Seq<char>,
> {
    match plan {
        ConversionPlan::RejectStringsdictWithoutLanguage => Some(stringsdict_language_message(input)),
        ConversionPlan::RejectLangcodecOutputLanguage => Some(
            langcodec_output_language_message(
                match output_lang {
                    Some(l) => l,
                    None => ""@,
                },
            ),
        ),
        _ => None,
    }
}

pub fn plan_refusal_message(plan: ConversionPlan, input: &str, options: &ConvertOptions) -> (r: Option<String>)
    ensures
        opt_seq(r) == plan_refusal(plan, input@, opt_seq(options.output_lang)),
{
    match plan {
        ConversionPlan::RejectStringsdictWithoutLanguage => {
            let m = crate::text::cat3(
                "Could not infer the input language for '",
                input,
                "'. Pass --source-language <LANG> or place the .stringsdict file under a <LANG>.lproj directory.",
            );
            Some(m)
        },
        ConversionPlan::RejectLangcodecOutputLanguage => {
            let l = match &options.output_lang {
                Some(l) => l.as_str(),
                None => "",
            };
            Some(
                crate::text::cat3(
                    "--output-lang '",
                    l,
                    "' is not supported for .langcodec output. Use --include-lang instead.",
                ),
            )
        },
        _ => None,
    }
}

} // verus!

//! Language tags: canonical identity through `unic-langid`, identity
//! comparison, and resolution of a requested tag against available ones.

use vstd::prelude::*;
use vstd::string::*;
use crate::text::{
    ascii_lower, ascii_lower_chars, cat3, chars_of, contains_char, ends_with, has_char,
    replace_char, replace_chars, starts_with, str_ends_with, str_eq, str_starts_with, trim,
    trim_chars,
};

verus! {

broadcast use vstd::string::group_string_axioms;

/// What `s.parse::<unic_langid::LanguageIdentifier>()` followed by
/// `to_string()` gives: the canonical rendering of a well-formed language
/// identifier, or `None` when the parse fails.
pub uninterp spec fn langid_canonical(s: Seq<char>) -> Option<Seq<char>>;

/// Parses `s` as a `unic_langid::LanguageIdentifier` and renders it back. The
/// contract claims that the result is what that parse and rendering give, and
/// that the ASCII-lowercased text gives the same: the parser matches each
/// subtag without regard to ASCII case and normalizes its case, so lowering
/// the input changes neither whether it parses nor what it renders to.
#[verifier::external_body]
pub(crate) fn canonical_language_id(s: &str) -> (r: Option<String>)
    ensures
        match r {
            Some(c) => langid_canonical(s@) == Some(c@) && langid_canonical(ascii_lower(s@)) == Some(c@),
            None => langid_canonical(s@) is None && langid_canonical(ascii_lower(s@)) is None,
        },
{
    s.parse::<unic_langid::LanguageIdentifier>().ok().map(|id| id.to_string())
}

pub open spec fn invalid_language_message(lang: Seq<char>) -> Seq<char> {
    "Invalid language code format: "@ + lang + ". Expected valid BCP 47 language identifier"@
}

/// The language codes that `validate_language_code` accepts.
pub open spec fn language_code_ok(lang: Seq<char>) -> bool {
    lang.len() > 0 && match langid_canonical(lang) {
        Some(c) => !(c == "invalid"@ || c == "123"@ || starts_with(c, "-"@) || ends_with(c, "-"@)),
        None => false,
    }
}

/// Validates a language code: it must be non-empty and parse as a BCP 47
/// language identifier (through `unic-langid`), and its canonical form must
/// not be a placeholder such as `invalid` or start or end with `-`.
pub fn validate_language_code(lang: &str) -> (r: Result<(), String>)
    ensures
        lang@.len() == 0 ==> (r matches Err(e) && e@ == "Language code cannot be empty"@),
        lang@.len() > 0 ==> (r is Ok <==> language_code_ok(lang@)),
        lang@.len() > 0 && !language_code_ok(lang@) ==> (r matches Err(e) && e@
            == invalid_language_message(lang@)),
{
    if lang.unicode_len() == 0 {
        return Err(String::from_str("Language code cannot be empty"));
    }
    match canonical_language_id(lang) {
        Some(c) => {
            let s = c.as_str();
            if str_eq(s, "invalid") || str_eq(s, "123") || str_starts_with(s, "-")
                || str_ends_with(s, "-") {
                return Err(
                    cat3(
                        "Invalid language code format: ",
                        lang,
                        ". Expected valid BCP 47 language identifier",
                    ),
                );
            }
            Ok(())
        },
        None => Err(
            cat3("Invalid language code format: ", lang, ". Expected valid BCP 47 language identifier"),
        ),
    }
}

/// The identity a language tag is compared by: trimmed, `_` read as `-`, put
/// in canonical form when `unic-langid` parses it, and ASCII-lowercased.
pub open spec fn lang_identity(lang: Seq<char>) -> Seq<char> {
    let n = replace_char(trim(lang), '_', '-');
    match langid_canonical(n) {
        Some(c) => ascii_lower(c),
        None => ascii_lower(n),
    }
}

/// Normalizes a language tag to its comparison identity; a tag and its
/// ASCII-lowercased form have the same identity.
pub fn normalize_lang(lang: &str) -> (r: Vec<char>)
    ensures
        r@ == lang_identity(lang@),
        lang_identity(ascii_lower(lang@)) == lang_identity(lang@),
{
    proof {
        crate::text::lemma_lower_commutes(lang@);
        crate::text::lemma_lower_commutes(replace_char(trim(lang@), '_', '-'));
    }
    let v = chars_of(lang);
    let t = trim_chars(v.as_slice());
    let n = replace_chars(t.as_slice(), '_', '-');
    let ns = crate::text::string_from_chars(n.as_slice());
    match canonical_language_id(ns.as_str()) {
        Some(c) => {
            let cv = chars_of(c.as_str());
            ascii_lower_chars(cv.as_slice())
        },
        None => ascii_lower_chars(n.as_slice()),
    }
}

/// Two language tags name the same language identity. Tags that differ only
/// in ASCII case always do.
pub fn language_identity_eq(left: &str, right: &str) -> (r: bool)
    ensures
        r == (lang_identity(left@) == lang_identity(right@)),
        crate::text::eq_ignore_case(left@, right@) ==> r,
{
    let a = normalize_lang(left);
    let b = normalize_lang(right);
    crate::text::chars_eq(a.as_slice(), b.as_slice())
}

/// The part of `s` before its first `c` (all of `s` when there is none).
pub open spec fn first_segment(s: Seq<char>, c: char) -> Seq<char>
    decreases s.len(),
{
    if s.len() == 0 {
        s
    } else if s[0] == c {
        Seq::empty()
    } else {
        seq![s[0]] + first_segment(s.drop_first(), c)
    }
}

proof fn lemma_first_segment(s: Seq<char>, c: char, i: int)
    requires
        0 <= i <= s.len(),
        forall|j: int| 0 <= j < i ==> s[j] != c,
        i == s.len() || s[i] == c,
    ensures
        first_segment(s, c) == s.take(i),
    decreases i,
{
    if i == 0 {
        assert(s.take(0) =~= Seq::<char>::empty());
        if s.len() > 0 {
            assert(s[0] == c);
        }
    } else {
        lemma_first_segment(s.drop_first(), c, i - 1);
        assert(seq![s[0]] + s.drop_first().take(i - 1) =~= s.take(i));
    }
}

/// The part of `v` before its first `c`.
pub fn first_segment_of(v: &[char], c: char) -> (r: Vec<char>)
    ensures
        r@ == first_segment(v@, c),
{
    let mut r: Vec<char> = Vec::new();
    let mut i: usize = 0;
    while i < v.len() && v[i] != c
        invariant
            i <= v@.len(),
            forall|j: int| 0 <= j < i ==> v@[j] != c,
            r@ == v@.take(i as int),
        decreases v.len() - i,
    {
        r.push(v[i]);
        i = i + 1;
        assert(r@ =~= v@.take(i as int));
    }
    proof {
        lemma_first_segment(v@, c, i as int);
    }
    r
}

/// The tag carries no subtag after the language: its identity has no `-`.
pub open spec fn is_bare(lang: Seq<char>) -> bool {
    !has_char(lang_identity(lang), '-')
}

/// The primary language subtag of a tag's identity.
pub open spec fn primary_of(lang: Seq<char>) -> Seq<char> {
    first_segment(lang_identity(lang), '-')
}

pub fn is_bare_language(language: &str) -> (r: bool)
    ensures
        r == is_bare(language@),
{
    let n = normalize_lang(language);
    !contains_char(n.as_slice(), '-')
}

pub fn primary_language(language: &str) -> (r: String)
    ensures
        r@ == primary_of(language@),
{
    let n = normalize_lang(language);
    let p = first_segment_of(n.as_slice(), '-');
    crate::text::string_from_chars(p.as_slice())
}

/// Comparing language tags by identity is an equivalence.
pub proof fn lemma_identity_equivalence(a: Seq<char>, b: Seq<char>, c: Seq<char>)
    ensures
        lang_identity(a) == lang_identity(a),
        (lang_identity(a) == lang_identity(b)) == (lang_identity(b) == lang_identity(a)),
        lang_identity(a) == lang_identity(b) && lang_identity(b) == lang_identity(c) ==> lang_identity(a)
            == lang_identity(c),
{
}

proof fn lemma_trim_start_replace(s: Seq<char>)
    ensures
        crate::text::trim_start(replace_char(s, '_', '-')) == replace_char(crate::text::trim_start(s), '_', '-'),
    decreases s.len(),
{
    let r = replace_char(s, '_', '-');
    if s.len() > 0 {
        assert(r[0] == s[0] || (s[0] == '_' && r[0] == '-'));
        assert(!crate::text::is_ws('_') && !crate::text::is_ws('-'));
        assert(r.drop_first() =~= replace_char(s.drop_first(), '_', '-'));
        lemma_trim_start_replace(s.drop_first());
    } else {
        assert(r.len() == 0);
    }
}

proof fn lemma_trim_end_replace(s: Seq<char>)
    ensures
        crate::text::trim_end(replace_char(s, '_', '-')) == replace_char(crate::text::trim_end(s), '_', '-'),
    decreases s.len(),
{
    let r = replace_char(s, '_', '-');
    if s.len() > 0 {
        assert(!crate::text::is_ws('_') && !crate::text::is_ws('-'));
        assert(r.last() == s.last() || (s.last() == '_' && r.last() == '-'));
        assert(r.drop_last() =~= replace_char(s.drop_last(), '_', '-'));
        lemma_trim_end_replace(s.drop_last());
    } else {
        assert(r.len() == 0);
    }
}

/// A tag has the identity of its spelling with `-` for `_`: `en_US` and
/// `en-US` are one language.
pub proof fn lemma_identity_ignores_underscores(s: Seq<char>)
    ensures
        lang_identity(replace_char(s, '_', '-')) == lang_identity(s),
{
    lemma_trim_start_replace(s);
    lemma_trim_end_replace(crate::text::trim_start(s));
    let t = trim(s);
    assert(trim(replace_char(s, '_', '-')) == replace_char(t, '_', '-'));
    assert(replace_char(replace_char(t, '_', '-'), '_', '-') =~= replace_char(t, '_', '-'));
}

} // verus!

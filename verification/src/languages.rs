//! Choosing languages: a requested tag resolved against the tags a catalog
//! has, lists of requested tags, and lookups of resources by identity.

use vstd::prelude::*;
use vstd::string::*;
use crate::langid::{
    first_segment, first_segment_of, invalid_language_message, lang_identity, language_code_ok,
    language_identity_eq, normalize_lang, validate_language_code,
};
use crate::langid::{is_bare, is_bare_language, primary_language, primary_of};
use crate::model::{
    find_key, key_position, languages_of, lemma_find_key_bounds, entries_view, Codec, Entry,
    EntryView, Resource, ResourceView,
};
use crate::order::{identity_leq, sort_by_identity, sort_texts, text_leq};
use crate::text::{
    chars_eq, chars_of, contains_char, has_char, join, join_strings, string_from_chars,
    strings_view, trim, trim_chars,
};

verus! {

broadcast use vstd::string::group_string_axioms;

/// The position of the first tag of `avail` with the identity of `req`.
pub open spec fn identity_match(avail: Seq<Seq<char>>, req: Seq<char>) -> Option<int>
    decreases avail.len(),
{
    if avail.len() == 0 {
        None
    } else {
        match identity_match(avail.drop_last(), req) {
            Some(i) => Some(i),
            None => if lang_identity(avail.last()) == lang_identity(req) {
                Some(avail.len() - 1)
            } else {
                None
            },
        }
    }
}

/// Some tag of `s` has the identity of `c`.
pub open spec fn has_identity(s: Seq<Seq<char>>, c: Seq<char>) -> bool {
    exists|j: int| 0 <= j < s.len() && lang_identity(#[trigger] s[j]) == lang_identity(c)
}

/// The tags of `avail` whose primary language is `base`, the first of each
/// identity kept, in order.
pub open spec fn variants(avail: Seq<Seq<char>>, base: Seq<char>) -> Seq<Seq<char>>
    decreases avail.len(),
{
    if avail.len() == 0 {
        Seq::empty()
    } else {
        let prev = variants(avail.drop_last(), base);
        let c = avail.last();
        if first_segment(lang_identity(c), '-') == base && !has_identity(prev, c) {
            prev.push(c)
        } else {
            prev
        }
    }
}

pub open spec fn ambiguous_message(
    subject: Seq<char>,
    requested: Seq<char>,
    sorted_variants: Seq<Seq<char>>,
    option: Seq<char>,
) -> Seq<char> {
    subject + " language '"@ + requested + "' is ambiguous; matching variants: "@ + join(
        sorted_variants,
        ", "@,
    ) + ". Specify "@ + option + " with a fully-qualified language tag"@
}

/// How a requested tag resolves against the available ones: the first
/// available tag of the same identity; else, for a bare language, its one
/// regional variant, `None` when there is none, and a refusal naming the
/// variants (ordered by identity) when there are several. A tag with a
/// subtag and no match resolves to `None`.
pub open spec fn resolved_tag(
    req: Seq<char>,
    avail: Seq<Seq<char>>,
    subject: Seq<char>,
    option: Seq<char>,
) -> Result<Option<Seq<char>>, Seq<char>> {
    match identity_match(avail, req) {
        Some(i) => Ok(Some(avail[i])),
        None => if has_char(lang_identity(req), '-') {
            Ok(None)
        } else {
            let vs = variants(avail, lang_identity(req));
            if vs.len() == 0 {
                Ok(None)
            } else if vs.len() == 1 {
                Ok(Some(vs[0]))
            } else {
                Err(ambiguous_message(subject, req, vs.sort_by(identity_leq()), option))
            }
        },
    }
}

pub open spec fn opt_result_view(r: Result<Option<String>, String>) -> Result<
    Option<Seq<char>>,
    Seq<char>,
> {
    match r {
        Ok(Some(s)) => Ok(Some(s@)),
        Ok(None) => Ok(None),
        Err(e) => Err(e@),
    }
}

proof fn lemma_identity_match_bounds(avail: Seq<Seq<char>>, req: Seq<char>)
    ensures
        match identity_match(avail, req) {
            Some(i) => 0 <= i < avail.len() && lang_identity(avail[i]) == lang_identity(req),
            None => !has_identity(avail, req),
        },
    decreases avail.len(),
{
    if avail.len() > 0 {
        lemma_identity_match_bounds(avail.drop_last(), req);
        if identity_match(avail.drop_last(), req) is None && lang_identity(avail.last())
            != lang_identity(req) {
            assert forall|j: int| 0 <= j < avail.len() implies lang_identity(#[trigger] avail[j])
                != lang_identity(req) by {
                if j < avail.len() - 1 {
                    assert(avail[j] == avail.drop_last()[j]);
                }
            }
        }
    }
}

/// The position of the first tag of `avail` with the identity of `req`.
pub fn identity_position(avail: &[String], req: &str) -> (r: Option<usize>)
    ensures
        match r {
            Some(i) => identity_match(strings_view(avail@), req@) == Some(i as int),
            None => identity_match(strings_view(avail@), req@) is None,
        },
{
    let ghost av = strings_view(avail@);
    let mut i: usize = 0;
    while i < avail.len()
        invariant
            i <= avail@.len(),
            av == strings_view(avail@),
            identity_match(av.take(i as int), req@) is None,
        decreases avail.len() - i,
    {
        assert(av.take(i + 1).drop_last() =~= av.take(i as int));
        if language_identity_eq(avail[i].as_str(), req) {
            proof {
                lemma_identity_match_prefix(av, req@, i as int);
            }
            return Some(i);
        }
        i = i + 1;
    }
    assert(av.take(i as int) =~= av);
    None
}

proof fn lemma_identity_match_prefix(av: Seq<Seq<char>>, req: Seq<char>, i: int)
    requires
        0 <= i < av.len(),
        identity_match(av.take(i), req) is None,
        lang_identity(av[i]) == lang_identity(req),
    ensures
        identity_match(av, req) == Some(i),
    decreases av.len(),
{
    assert(av.take(i + 1).drop_last() =~= av.take(i));
    assert(identity_match(av.take(i + 1), req) == Some(i));
    if av.len() > i + 1 {
        assert(av.drop_last().take(i) =~= av.take(i));
        lemma_identity_match_prefix(av.drop_last(), req, i);
    } else {
        assert(av.take(i + 1) =~= av);
    }
}

/// Whether some tag of `list` has the identity of `c`.
pub fn contains_identity(list: &Vec<String>, c: &str) -> (r: bool)
    ensures
        r == has_identity(strings_view(list@), c@),
{
    let mut j: usize = 0;
    while j < list.len()
        invariant
            j <= list@.len(),
            forall|k: int| 0 <= k < j ==> lang_identity(#[trigger] list@[k]@) != lang_identity(c@),
        decreases list.len() - j,
    {
        if language_identity_eq(list[j].as_str(), c) {
            assert(strings_view(list@)[j as int] == list@[j as int]@);
            return true;
        }
        j = j + 1;
    }
    assert forall|k: int| 0 <= k < strings_view(list@).len() implies lang_identity(
        #[trigger] strings_view(list@)[k],
    ) != lang_identity(c@) by {
        assert(strings_view(list@)[k] == list@[k]@);
    }
    false
}

fn regional_variants(avail: &[String], base: &Vec<char>) -> (r: Vec<String>)
    ensures
        strings_view(r@) == variants(strings_view(avail@), base@),
{
    let ghost av = strings_view(avail@);
    let mut r: Vec<String> = Vec::new();
    let mut i: usize = 0;
    while i < avail.len()
        invariant
            i <= avail@.len(),
            av == strings_view(avail@),
            strings_view(r@) == variants(av.take(i as int), base@),
        decreases avail.len() - i,
    {
        assert(av.take(i + 1).drop_last() =~= av.take(i as int));
        let c = avail[i].as_str();
        let n = normalize_lang(c);
        let head = first_segment_of(n.as_slice(), '-');
        if chars_eq(head.as_slice(), base.as_slice()) && !contains_identity(&r, c) {
            r.push(avail[i].clone());
            assert(strings_view(r@) =~= variants(av.take(i as int), base@).push(c@));
        }
        i = i + 1;
    }
    assert(av.take(i as int) =~= av);
    r
}

/// Resolves a requested language tag against the available ones.
pub fn resolve_language_tag(requested: &str, available: &[String], subject: &str, option: &str) -> (r:
    Result<Option<String>, String>)
    ensures
        opt_result_view(r) == resolved_tag(requested@, strings_view(available@), subject@, option@),
{
    proof {
        lemma_identity_match_bounds(strings_view(available@), requested@);
    }
    if let Some(i) = identity_position(available, requested) {
        return Ok(Some(available[i].clone()));
    }
    let n = normalize_lang(requested);
    if contains_char(n.as_slice(), '-') {
        return Ok(None);
    }
    let vs = regional_variants(available, &n);
    if vs.len() == 0 {
        Ok(None)
    } else if vs.len() == 1 {
        Ok(Some(vs[0].clone()))
    } else {
        let sorted = sort_by_identity(vs);
        let mut e = String::from_str(subject);
        e.append(" language '");
        e.append(requested);
        e.append("' is ambiguous; matching variants: ");
        let joined = join_strings(&sorted, ", ");
        e.append(joined.as_str());
        e.append(". Specify ");
        e.append(option);
        e.append(" with a fully-qualified language tag");
        Err(e)
    }
}

/// What a list of requested tags becomes: each trimmed, blanks skipped, each
/// validated (the first invalid one refuses the list), and a tag whose
/// identity is already listed dropped.
pub open spec fn parsed_languages(values: Seq<Seq<char>>) -> Result<Seq<Seq<char>>, Seq<char>>
    decreases values.len(),
{
    if values.len() == 0 {
        Ok(Seq::empty())
    } else {
        match parsed_languages(values.drop_last()) {
            Err(e) => Err(e),
            Ok(prev) => {
                let v = trim(values.last());
                if v.len() == 0 {
                    Ok(prev)
                } else if !language_code_ok(v) {
                    Err(invalid_language_message(v))
                } else if has_identity(prev, v) {
                    Ok(prev)
                } else {
                    Ok(prev.push(v))
                }
            },
        }
    }
}

pub open spec fn list_result_view(r: Result<Vec<String>, String>) -> Result<
    Seq<Seq<char>>,
    Seq<char>,
> {
    match r {
        Ok(v) => Ok(strings_view(v@)),
        Err(e) => Err(e@),
    }
}

proof fn lemma_parsed_err_sticks(values: Seq<Seq<char>>, i: int, e: Seq<char>)
    requires
        0 <= i <= values.len(),
        parsed_languages(values.take(i)) == Err::<Seq<Seq<char>>, Seq<char>>(e),
    ensures
        parsed_languages(values) == Err::<Seq<Seq<char>>, Seq<char>>(e),
    decreases values.len() - i,
{
    if i < values.len() {
        assert(values.take(i + 1).drop_last() =~= values.take(i));
        lemma_parsed_err_sticks(values, i + 1, e);
    } else {
        assert(values.take(i) =~= values);
    }
}

/// Parses a list of requested language tags.
pub fn parse_language_list(values: &[String]) -> (r: Result<Vec<String>, String>)
    ensures
        list_result_view(r) == parsed_languages(strings_view(values@)),
{
    let ghost vv = strings_view(values@);
    let mut parsed: Vec<String> = Vec::new();
    let mut i: usize = 0;
    assert(vv.take(0) =~= Seq::<Seq<char>>::empty());
    assert(strings_view(parsed@) =~= Seq::<Seq<char>>::empty());
    while i < values.len()
        invariant
            i <= values@.len(),
            vv == strings_view(values@),
            parsed_languages(vv.take(i as int)) == Ok::<Seq<Seq<char>>, Seq<char>>(
                strings_view(parsed@),
            ),
        decreases values.len() - i,
    {
        assert(vv.take(i + 1).drop_last() =~= vv.take(i as int));
        assert(vv.take(i + 1).last() == values@[i as int]@);
        let ghost prev = strings_view(parsed@);
        let raw = chars_of(values[i].as_str());
        let tv = trim_chars(raw.as_slice());
        assert(tv@ == trim(vv.take(i + 1).last()));
        if tv.len() > 0 {
            let value = string_from_chars(tv.as_slice());
            match validate_language_code(value.as_str()) {
                Err(e) => {
                    proof {
                        lemma_parsed_err_sticks(vv, i + 1, e@);
                    }
                    return Err(e);
                },
                Ok(()) => {},
            }
            if !contains_identity(&parsed, value.as_str()) {
                parsed.push(value);
                assert(strings_view(parsed@) =~= prev.push(tv@));
            }
        }
        assert(parsed_languages(vv.take(i + 1)) == Ok::<Seq<Seq<char>>, Seq<char>>(
            strings_view(parsed@),
        ));
        i = i + 1;
    }
    assert(vv.take(i as int) =~= vv);
    Ok(parsed)
}

/// The resource of a catalog whose language has the identity of `language`.
pub fn find_resource_by_language_identity<'a>(codec: &'a Codec, language: &str) -> (r: Option<
    &'a Resource,
>)
    ensures
        match r {
            Some(res) => identity_match(languages_of(codec@), language@) matches Some(i)
                && res@ == codec@[i],
            None => identity_match(languages_of(codec@), language@) is None,
        },
{
    let langs = codec.languages();
    proof {
        lemma_identity_match_bounds(languages_of(codec@), language@);
    }
    match identity_position(langs.as_slice(), language) {
        Some(i) => Some(&codec.resources[i]),
        None => None,
    }
}

/// A source resource and its language.
#[derive(Debug, Clone)]
pub struct SelectedResource {
    pub language: String,
    pub resource: Resource,
}

pub open spec fn source_not_found(lang: Seq<char>) -> Seq<char> {
    "Source language '"@ + lang + "' not found"@
}

/// Which resource a translate run reads from: the one the requested source
/// language resolves to; without a request, the only resource.
pub open spec fn selected_source(rs: Seq<ResourceView>, req: Option<Seq<char>>) -> Result<
    int,
    Seq<char>,
> {
    match req {
        Some(l) => match resolved_tag(l, languages_of(rs), "Source"@, "--source-lang"@) {
            Err(e) => Err(e),
            Ok(None) => Err(source_not_found(l)),
            Ok(Some(t)) => match identity_match(languages_of(rs), t) {
                Some(i) => Ok(i),
                None => Err(source_not_found(l)),
            },
        },
        None => if rs.len() == 1 {
            Ok(0)
        } else {
            Err("Multiple source languages present; specify --source-lang"@)
        },
    }
}

pub fn select_source_resource(codec: &Codec, requested_lang: &Option<String>) -> (r: Result<
    SelectedResource,
    String,
>)
    ensures
        match selected_source(codec@, crate::model::opt_seq(*requested_lang)) {
            Ok(i) => r matches Ok(sel) && 0 <= i < codec@.len() && sel.resource@ == codec@[i]
                && sel.language@ == codec@[i].metadata.language,
            Err(e) => r matches Err(msg) && msg@ == e,
        },
{
    if let Some(lang) = requested_lang {
        let langs = codec.languages();
        let resolved = match resolve_language_tag(lang.as_str(), langs.as_slice(), "Source", "--source-lang") {
            Err(e) => return Err(e),
            Ok(None) => return Err(crate::text::cat3("Source language '", lang.as_str(), "' not found")),
            Ok(Some(t)) => t,
        };
        proof {
            lemma_identity_match_bounds(languages_of(codec@), resolved@);
        }
        match find_resource_by_language_identity(codec, resolved.as_str()) {
            Some(res) => {
                let resource = res.copy();
                return Ok(SelectedResource { language: resource.metadata.language.clone(), resource });
            },
            None => return Err(crate::text::cat3("Source language '", lang.as_str(), "' not found")),
        }
    }
    if codec.resources.len() == 1 {
        let resource = codec.resources[0].copy();
        return Ok(SelectedResource { language: resource.metadata.language.clone(), resource });
    }
    Err(String::from_str("Multiple source languages present; specify --source-lang"))
}

/// The position of the first requested tag that is bare and shares the
/// primary language of `t`.
pub open spec fn bare_primary_match(reqs: Seq<Seq<char>>, t: Seq<char>) -> Option<int>
    decreases reqs.len(),
{
    if reqs.len() == 0 {
        None
    } else {
        match bare_primary_match(reqs.drop_last(), t) {
            Some(i) => Some(i),
            None => if is_bare(reqs.last()) && primary_of(reqs.last()) == primary_of(t) {
                Some(reqs.len() - 1)
            } else {
                None
            },
        }
    }
}

/// Which requested tag a target path's own language binds: the first of the
/// same identity, else the first bare tag of the same primary language.
pub open spec fn target_binding(reqs: Seq<Seq<char>>, target: Option<Seq<char>>) -> Option<int> {
    match target {
        None => None,
        Some(t) => match identity_match(reqs, t) {
            Some(j) => Some(j),
            None => bare_primary_match(reqs, t),
        },
    }
}

pub open spec fn retag_conflict_message(req: Seq<char>, t: Seq<char>) -> Seq<char> {
    "Requested target language '"@ + req
        + "' conflicts with explicit target path language '"@ + t
        + "'; refusing to retag the target locale"@
}

pub open spec fn opt_list(o: Option<Seq<char>>) -> Seq<Seq<char>> {
    match o {
        Some(x) => seq![x],
        None => Seq::empty(),
    }
}

/// The tag that requested target `k` stands for.
pub open spec fn canonical_target(
    rs: Seq<ResourceView>,
    reqs: Seq<Seq<char>>,
    k: int,
    target: Option<Seq<char>>,
    output: Option<Seq<char>>,
) -> Result<Seq<char>, Seq<char>> {
    let req = reqs[k];
    let avail = languages_of(rs) + opt_list(output);
    let binding = target_binding(reqs, target);
    if binding == Some(k) {
        let t = target.unwrap();
        match identity_match(languages_of(rs), t) {
            Some(i) => Ok(languages_of(rs)[i]),
            None => Ok(t),
        }
    } else if target is Some && binding is None && !is_bare(req) && primary_of(req) == primary_of(
        target.unwrap(),
    ) {
        Err(retag_conflict_message(req, target.unwrap()))
    } else {
        match resolved_tag(req, avail, "Target"@, "--target-lang"@) {
            Err(e) => Err(e),
            Ok(Some(x)) => Ok(x),
            Ok(None) => Ok(req),
        }
    }
}

/// The target languages of a run, from the first `n` requested tags: each
/// resolved, and one of an identity already listed dropped.
pub open spec fn resolved_targets(
    rs: Seq<ResourceView>,
    reqs: Seq<Seq<char>>,
    n: int,
    target: Option<Seq<char>>,
    output: Option<Seq<char>>,
) -> Result<Seq<Seq<char>>, Seq<char>>
    decreases n,
{
    if n <= 0 {
        Ok(Seq::empty())
    } else {
        match resolved_targets(rs, reqs, n - 1, target, output) {
            Err(e) => Err(e),
            Ok(prev) => match canonical_target(rs, reqs, n - 1, target, output) {
                Err(e) => Err(e),
                Ok(c) => if has_identity(prev, c) {
                    Ok(prev)
                } else {
                    Ok(prev.push(c))
                },
            },
        }
    }
}

pub open spec fn opt_str_view(o: Option<&str>) -> Option<Seq<char>> {
    match o {
        Some(s) => Some(s@),
        None => None,
    }
}

fn bare_primary_position(reqs: &[String], t: &str) -> (r: Option<usize>)
    ensures
        match r {
            Some(i) => bare_primary_match(strings_view(reqs@), t@) == Some(i as int),
            None => bare_primary_match(strings_view(reqs@), t@) is None,
        },
{
    let ghost rv = strings_view(reqs@);
    let pt = primary_language(t);
    let mut i: usize = 0;
    while i < reqs.len()
        invariant
            i <= reqs@.len(),
            rv == strings_view(reqs@),
            pt@ == primary_of(t@),
            bare_primary_match(rv.take(i as int), t@) is None,
        decreases reqs.len() - i,
    {
        assert(rv.take(i + 1).drop_last() =~= rv.take(i as int));
        let req = reqs[i].as_str();
        if is_bare_language(req) && crate::text::str_eq(primary_language(req).as_str(), pt.as_str()) {
            proof {
                lemma_bare_primary_prefix(rv, t@, i as int);
            }
            return Some(i);
        }
        i = i + 1;
    }
    assert(rv.take(i as int) =~= rv);
    None
}

proof fn lemma_bare_primary_prefix(rv: Seq<Seq<char>>, t: Seq<char>, i: int)
    requires
        0 <= i < rv.len(),
        bare_primary_match(rv.take(i), t) is None,
        is_bare(rv[i]) && primary_of(rv[i]) == primary_of(t),
    ensures
        bare_primary_match(rv, t) == Some(i),
    decreases rv.len(),
{
    assert(rv.take(i + 1).drop_last() =~= rv.take(i));
    if rv.len() > i + 1 {
        assert(rv.drop_last().take(i) =~= rv.take(i));
        lemma_bare_primary_prefix(rv.drop_last(), t, i);
    } else {
        assert(rv.take(i + 1) =~= rv);
    }
}

proof fn lemma_targets_err_sticks(
    rs: Seq<ResourceView>,
    reqs: Seq<Seq<char>>,
    i: int,
    target: Option<Seq<char>>,
    output: Option<Seq<char>>,
    e: Seq<char>,
)
    requires
        0 <= i <= reqs.len(),
        resolved_targets(rs, reqs, i, target, output) == Err::<Seq<Seq<char>>, Seq<char>>(e),
    ensures
        resolved_targets(rs, reqs, reqs.len() as int, target, output) == Err::<
            Seq<Seq<char>>,
            Seq<char>,
        >(e),
    decreases reqs.len() - i,
{
    if i < reqs.len() {
        lemma_targets_err_sticks(rs, reqs, i + 1, target, output, e);
    }
}

/// Resolves the requested target languages of a run against the catalog's
/// languages, the output path's language and the target path's language.
pub fn resolve_target_languages(
    codec: &Codec,
    requested_langs: &[String],
    inferred_from_target: Option<&str>,
    inferred_from_output: Option<&str>,
) -> (r: Result<Vec<String>, String>)
    ensures
        list_result_view(r) == resolved_targets(
            codec@,
            strings_view(requested_langs@),
            requested_langs@.len() as int,
            opt_str_view(inferred_from_target),
            opt_str_view(inferred_from_output),
        ),
{
    let ghost rv = strings_view(requested_langs@);
    let ghost target = opt_str_view(inferred_from_target);
    let ghost output = opt_str_view(inferred_from_output);
    let langs = codec.languages();
    let mut available = codec.languages();
    if let Some(o) = inferred_from_output {
        available.push(String::from_str(o));
    }
    assert(strings_view(available@) =~= languages_of(codec@) + opt_list(output));
    let binding: Option<usize> = match inferred_from_target {
        None => None,
        Some(t) => match identity_position(requested_langs, t) {
            Some(j) => Some(j),
            None => bare_primary_position(requested_langs, t),
        },
    };
    assert(binding matches Some(b) ==> target_binding(rv, target) == Some(b as int));
    assert(binding is None ==> target_binding(rv, target) is None);
    let mut resolved: Vec<String> = Vec::new();
    let mut i: usize = 0;
    assert(strings_view(resolved@) =~= Seq::<Seq<char>>::empty());
    while i < requested_langs.len()
        invariant
            i <= requested_langs@.len(),
            rv == strings_view(requested_langs@),
            target == opt_str_view(inferred_from_target),
            output == opt_str_view(inferred_from_output),
            strings_view(langs@) == languages_of(codec@),
            strings_view(available@) == languages_of(codec@) + opt_list(output),
            binding matches Some(b) ==> target_binding(rv, target) == Some(b as int),
            binding is None ==> target_binding(rv, target) is None,
            resolved_targets(codec@, rv, i as int, target, output) == Ok::<
                Seq<Seq<char>>,
                Seq<char>,
            >(strings_view(resolved@)),
        decreases requested_langs.len() - i,
    {
        let req = requested_langs[i].as_str();
        assert(rv[i as int] == req@);
        let is_bound = match binding {
            Some(b) => b == i,
            None => false,
        };
        let canonical: String = if is_bound {
            let t = inferred_from_target.unwrap();
            proof {
                lemma_identity_match_bounds(languages_of(codec@), t@);
            }
            match identity_position(langs.as_slice(), t) {
                Some(k) => langs[k].clone(),
                None => String::from_str(t),
            }
        } else {
            let conflict = match inferred_from_target {
                Some(t) => binding.is_none() && !is_bare_language(req) && crate::text::str_eq(
                    primary_language(req).as_str(),
                    primary_language(t).as_str(),
                ),
                None => false,
            };
            if conflict {
                let t = inferred_from_target.unwrap();
                let mut e = String::from_str("Requested target language '");
                e.append(req);
                e.append("' conflicts with explicit target path language '");
                e.append(t);
                e.append("'; refusing to retag the target locale");
                proof {
                    lemma_targets_err_sticks(codec@, rv, i + 1, target, output, e@);
                }
                return Err(e);
            }
            match resolve_language_tag(req, available.as_slice(), "Target", "--target-lang") {
                Err(e) => {
                    proof {
                        lemma_targets_err_sticks(codec@, rv, i + 1, target, output, e@);
                    }
                    return Err(e);
                },
                Ok(Some(x)) => x,
                Ok(None) => String::from_str(req),
            }
        };
        assert(canonical_target(codec@, rv, i as int, target, output) == Ok::<
            Seq<char>,
            Seq<char>,
        >(canonical@));
        let ghost prev = strings_view(resolved@);
        if !contains_identity(&resolved, canonical.as_str()) {
            resolved.push(canonical);
            assert(strings_view(resolved@) =~= prev.push(canonical@));
        }
        i = i + 1;
    }
    Ok(resolved)
}

/// The tags of `langs` whose identity is `d`, in order.
pub open spec fn identity_group(langs: Seq<Seq<char>>, d: Seq<char>) -> Seq<Seq<char>>
    decreases langs.len(),
{
    if langs.len() == 0 {
        Seq::empty()
    } else if lang_identity(langs.last()) == d {
        identity_group(langs.drop_last(), d).push(langs.last())
    } else {
        identity_group(langs.drop_last(), d)
    }
}

/// The identities of `langs` that two or more tags share, each once, in the
/// order they first occur.
pub open spec fn shared_identities(langs: Seq<Seq<char>>, n: int) -> Seq<Seq<char>>
    decreases n,
{
    if n <= 0 {
        Seq::empty()
    } else {
        let prev = shared_identities(langs, n - 1);
        let d = lang_identity(langs[n - 1]);
        if identity_group(langs, d).len() >= 2 && !prev.contains(d) {
            prev.push(d)
        } else {
            prev
        }
    }
}

/// How one shared identity is reported: the identity, then its tags in order.
pub open spec fn duplicate_part(langs: Seq<Seq<char>>, d: Seq<char>) -> Seq<char> {
    d + " ("@ + join(identity_group(langs, d).sort_by(text_leq()), ", "@) + ")"@
}

pub open spec fn duplicate_parts(langs: Seq<Seq<char>>, ds: Seq<Seq<char>>) -> Seq<Seq<char>>
    decreases ds.len(),
{
    if ds.len() == 0 {
        Seq::empty()
    } else {
        duplicate_parts(langs, ds.drop_last()).push(duplicate_part(langs, ds.last()))
    }
}

/// A catalog is refused when two of its resources share a language identity;
/// the refusal names each shared identity, in order, with its tags.
pub open spec fn unique_identities_check(langs: Seq<Seq<char>>, label: Seq<char>) -> Result<
    (),
    Seq<char>,
> {
    let ds = shared_identities(langs, langs.len() as int).sort_by(text_leq());
    if shared_identities(langs, langs.len() as int).len() == 0 {
        Ok(())
    } else {
        Err(label + " contains duplicate normalized language identities: "@ + join(
            duplicate_parts(langs, ds),
            "; "@,
        ))
    }
}

fn identity_group_of(langs: &Vec<String>, d: &Vec<char>) -> (r: Vec<String>)
    ensures
        strings_view(r@) == identity_group(strings_view(langs@), d@),
{
    let ghost lv = strings_view(langs@);
    let mut r: Vec<String> = Vec::new();
    let mut i: usize = 0;
    assert(lv.take(0) =~= Seq::<Seq<char>>::empty());
    assert(strings_view(r@) =~= Seq::<Seq<char>>::empty());
    while i < langs.len()
        invariant
            i <= langs@.len(),
            lv == strings_view(langs@),
            strings_view(r@) == identity_group(lv.take(i as int), d@),
        decreases langs.len() - i,
    {
        assert(lv.take(i + 1).drop_last() =~= lv.take(i as int));
        let n = normalize_lang(langs[i].as_str());
        let ghost prev = strings_view(r@);
        if chars_eq(n.as_slice(), d.as_slice()) {
            r.push(langs[i].clone());
            assert(strings_view(r@) =~= prev.push(lv[i as int]));
        }
        i = i + 1;
    }
    assert(lv.take(i as int) =~= lv);
    r
}

fn contains_text(list: &Vec<String>, c: &Vec<char>) -> (r: bool)
    ensures
        r == strings_view(list@).contains(c@),
{
    let mut j: usize = 0;
    while j < list.len()
        invariant
            j <= list@.len(),
            forall|k: int| 0 <= k < j ==> (#[trigger] list@[k])@ != c@,
        decreases list.len() - j,
    {
        let w = chars_of(list[j].as_str());
        if chars_eq(w.as_slice(), c.as_slice()) {
            assert(strings_view(list@)[j as int] == c@);
            return true;
        }
        j = j + 1;
    }
    assert forall|k: int| 0 <= k < strings_view(list@).len() implies #[trigger] strings_view(
        list@,
    )[k] != c@ by {
        assert(strings_view(list@)[k] == list@[k]@);
    }
    false
}

/// Refuses a catalog in which two resources share a language identity.
pub fn validate_unique_language_identities(codec: &Codec, label: &str) -> (r: Result<(), String>)
    ensures
        match unique_identities_check(languages_of(codec@), label@) {
            Ok(()) => r is Ok,
            Err(e) => r matches Err(msg) && msg@ == e,
        },
{
    let langs = codec.languages();
    let ghost lv = strings_view(langs@);
    let mut shared: Vec<String> = Vec::new();
    let mut i: usize = 0;
    assert(strings_view(shared@) =~= Seq::<Seq<char>>::empty());
    while i < langs.len()
        invariant
            i <= langs@.len(),
            lv == strings_view(langs@),
            strings_view(shared@) == shared_identities(lv, i as int),
        decreases langs.len() - i,
    {
        let d = normalize_lang(langs[i].as_str());
        let group = identity_group_of(&langs, &d);
        let ghost prev = strings_view(shared@);
        if group.len() >= 2 && !contains_text(&shared, &d) {
            shared.push(string_from_chars(d.as_slice()));
            assert(strings_view(shared@) =~= prev.push(d@));
        }
        i = i + 1;
    }
    if shared.len() == 0 {
        return Ok(());
    }
    let sorted = sort_texts(shared);
    let ghost ds = strings_view(sorted@);
    let mut parts: Vec<String> = Vec::new();
    let mut k: usize = 0;
    assert(ds.take(0) =~= Seq::<Seq<char>>::empty());
    assert(strings_view(parts@) =~= Seq::<Seq<char>>::empty());
    while k < sorted.len()
        invariant
            k <= sorted@.len(),
            ds == strings_view(sorted@),
            lv == strings_view(langs@),
            strings_view(parts@) == duplicate_parts(lv, ds.take(k as int)),
        decreases sorted.len() - k,
    {
        assert(ds.take(k + 1).drop_last() =~= ds.take(k as int));
        let d = chars_of(sorted[k].as_str());
        let group = identity_group_of(&langs, &d);
        let ordered = sort_texts(group);
        let mut part = sorted[k].clone();
        part.append(" (");
        let joined = join_strings(&ordered, ", ");
        part.append(joined.as_str());
        part.append(")");
        let ghost prev = strings_view(parts@);
        parts.push(part);
        assert(strings_view(parts@) =~= prev.push(duplicate_part(lv, ds[k as int])));
        k = k + 1;
    }
    assert(ds.take(k as int) =~= ds);
    let mut e = String::from_str(label);
    e.append(" contains duplicate normalized language identities: ");
    let joined = join_strings(&parts, "; ");
    e.append(joined.as_str());
    Err(e)
}

/// The entry keyed `key` in the resource whose language has the identity of
/// `lang`.
pub open spec fn identity_lookup(rs: Seq<ResourceView>, key: Seq<char>, lang: Seq<char>) -> Option<
    EntryView,
> {
    match identity_match(languages_of(rs), lang) {
        Some(i) => match find_key(rs[i].entries, key) {
            Some(j) => Some(rs[i].entries[j]),
            None => None,
        },
        None => None,
    }
}

/// The position of the resource whose language has the identity of `lang`.
pub fn resource_identity_position(codec: &Codec, lang: &str) -> (r: Option<usize>)
    ensures
        match r {
            Some(i) => identity_match(languages_of(codec@), lang@) == Some(i as int) && i
                < codec@.len(),
            None => identity_match(languages_of(codec@), lang@) is None,
        },
{
    let langs = codec.languages();
    proof {
        lemma_identity_match_bounds(languages_of(codec@), lang@);
    }
    identity_position(langs.as_slice(), lang)
}

/// The entry keyed `key` in the resource of the identity of `language`.
pub fn find_entry_by_language_identity<'a>(codec: &'a Codec, key: &str, language: &str) -> (r:
    Option<&'a Entry>)
    ensures
        match r {
            Some(e) => identity_lookup(codec@, key@, language@) == Some(e@),
            None => identity_lookup(codec@, key@, language@) is None,
        },
{
    match resource_identity_position(codec, language) {
        Some(i) => {
            let res = &codec.resources[i];
            match key_position(&res.entries, key) {
                Some(j) => {
                    proof {
                        lemma_find_key_bounds(entries_view(res.entries@), key@);
                    }
                    Some(&res.entries[j])
                },
                None => None,
            }
        },
        None => None,
    }
}

/// The first match found by identity is a tag of that identity; with no
/// match, no tag has it.
pub proof fn lemma_identity_match_bounds_pub(avail: Seq<Seq<char>>, req: Seq<char>)
    ensures
        match identity_match(avail, req) {
            Some(i) => 0 <= i < avail.len() && lang_identity(avail[i]) == lang_identity(req),
            None => !has_identity(avail, req),
        },
{
    lemma_identity_match_bounds(avail, req);
}

} // verus!

//! Tolgee synchronisation: which namespaces a run works on, where a pulled
//! catalog lands, and how a pulled catalog is merged into a local one.

use vstd::prelude::*;
use vstd::string::*;
use crate::languages::{
    find_resource_by_language_identity, has_identity, identity_match, identity_position,
    resource_identity_position,
};
use crate::langid::{
    first_segment, first_segment_of, lang_identity, language_identity_eq, normalize_lang,
};
use crate::model::{
    added, entries_view, find_key, key_position, languages_of, lemma_find_key_bounds, opt_seq,
    with_entry, Codec, Entry, EntryStatus, EntryView, Metadata, MetadataView, PluralCategory,
    Resource, ResourceView, Translation, TranslationView,
};
use crate::order::{identity_leq, sort_by_identity};
use crate::text::{
    chars_eq, chars_of, contains_char, has_char, join, join_strings, str_eq, strings_view, trim,
    trim_chars,
};

verus! {

broadcast use vstd::string::group_string_axioms;

/// The options of `tolgee pull`.
#[derive(Debug, Clone)]
pub struct TolgeePullOptions {
    pub config: Option<String>,
    pub namespaces: Vec<String>,
    pub dry_run: bool,
    pub strict: bool,
}

/// The options of `tolgee push`.
#[derive(Debug, Clone)]
pub struct TolgeePushOptions {
    pub config: Option<String>,
    pub namespaces: Vec<String>,
    pub dry_run: bool,
}

/// Whether and how a translate run works with Tolgee.
#[derive(Debug, Clone)]
pub struct TranslateTolgeeSettings {
    pub enabled: bool,
    pub config: Option<String>,
    pub namespaces: Vec<String>,
}

impl TranslateTolgeeSettings {
    /// Settings with Tolgee off.
    pub fn disabled() -> (r: Self)
        ensures
            !r.enabled,
            r.config is None,
            r.namespaces@.len() == 0,
    {
        TranslateTolgeeSettings { enabled: false, config: None, namespaces: Vec::new() }
    }
}

/// The namespaces of a run, for a message: `(none)`, the one namespace, or
/// all of them separated by commas.
pub open spec fn namespaces_text(ns: Seq<Seq<char>>) -> Seq<char> {
    if ns.len() == 0 {
        "(none)"@
    } else {
        join(ns, ", "@)
    }
}

pub fn describe_namespaces(namespaces: &Vec<String>) -> (r: String)
    ensures
        r@ == namespaces_text(strings_view(namespaces@)),
{
    if namespaces.len() == 0 {
        String::from_str("(none)")
    } else if namespaces.len() == 1 {
        assert(strings_view(namespaces@).drop_last().len() == 0);
        namespaces[0].clone()
    } else {
        join_strings(namespaces, ", ")
    }
}

/// A local catalog mapped to a Tolgee namespace.
#[derive(Debug, Clone)]
pub struct TolgeeMappedFile {
    pub namespace: String,
    pub relative_path: String,
    pub absolute_path: String,
}

pub open spec fn mapping_view(m: TolgeeMappedFile) -> (Seq<char>, Seq<char>, Seq<char>) {
    (m.namespace@, m.relative_path@, m.absolute_path@)
}

pub open spec fn mappings_view(v: Seq<TolgeeMappedFile>) -> Seq<(Seq<char>, Seq<char>, Seq<char>)> {
    v.map_values(|m: TolgeeMappedFile| mapping_view(m))
}

/// The position of the first mapping of namespace `ns`.
pub open spec fn mapping_index(ms: Seq<(Seq<char>, Seq<char>, Seq<char>)>, ns: Seq<char>) -> Option<int>
    decreases ms.len(),
{
    if ms.len() == 0 {
        None
    } else {
        match mapping_index(ms.drop_last(), ns) {
            Some(i) => Some(i),
            None => if ms.last().0 == ns {
                Some(ms.len() - 1)
            } else {
                None
            },
        }
    }
}

/// The mappings a run works on: all of them when no namespace is named;
/// else the first mapping of each named namespace, each namespace once. A
/// namespace without a mapping is refused.
pub open spec fn selected_mappings(
    ms: Seq<(Seq<char>, Seq<char>, Seq<char>)>,
    ns: Seq<Seq<char>>,
    n: int,
) -> Result<Seq<(Seq<char>, Seq<char>, Seq<char>)>, Seq<char>>
    decreases n,
{
    if n <= 0 {
        Ok(Seq::empty())
    } else {
        match selected_mappings(ms, ns, n - 1) {
            Err(e) => Err(e),
            Ok(prev) => match mapping_index(ms, ns[n - 1]) {
                None => Err(
                    "Tolgee namespace '"@ + ns[n - 1] + "' is not configured in push.files"@,
                ),
                Some(i) => if mapping_index(prev, ms[i].0) is Some {
                    Ok(prev)
                } else {
                    Ok(prev.push(ms[i]))
                },
            },
        }
    }
}

proof fn lemma_mapping_index(ms: Seq<(Seq<char>, Seq<char>, Seq<char>)>, ns: Seq<char>)
    ensures
        match mapping_index(ms, ns) {
            Some(i) => 0 <= i < ms.len() && ms[i].0 == ns,
            None => forall|j: int| 0 <= j < ms.len() ==> (#[trigger] ms[j]).0 != ns,
        },
    decreases ms.len(),
{
    if ms.len() > 0 {
        lemma_mapping_index(ms.drop_last(), ns);
        if mapping_index(ms.drop_last(), ns) is None {
            assert forall|j: int| 0 <= j < ms.len() - 1 implies (#[trigger] ms[j]).0 != ns by {
                assert(ms[j] == ms.drop_last()[j]);
            }
        }
    }
}

fn find_mapping(ms: &Vec<TolgeeMappedFile>, ns: &str) -> (r: Option<usize>)
    ensures
        match r {
            Some(i) => mapping_index(mappings_view(ms@), ns@) == Some(i as int),
            None => mapping_index(mappings_view(ms@), ns@) is None,
        },
{
    let ghost mv = mappings_view(ms@);
    let mut i: usize = 0;
    assert(mv.take(0) =~= Seq::<(Seq<char>, Seq<char>, Seq<char>)>::empty());
    while i < ms.len()
        invariant
            i <= ms@.len(),
            mv == mappings_view(ms@),
            mapping_index(mv.take(i as int), ns@) is None,
        decreases ms.len() - i,
    {
        assert(mv.take(i + 1).drop_last() =~= mv.take(i as int));
        if str_eq(ms[i].namespace.as_str(), ns) {
            proof {
                lemma_mapping_index_prefix(mv, ns@, i as int);
            }
            return Some(i);
        }
        i = i + 1;
    }
    assert(mv.take(i as int) =~= mv);
    None
}

proof fn lemma_mapping_index_prefix(mv: Seq<(Seq<char>, Seq<char>, Seq<char>)>, ns: Seq<char>, i: int)
    requires
        0 <= i < mv.len(),
        mapping_index(mv.take(i), ns) is None,
        mv[i].0 == ns,
    ensures
        mapping_index(mv, ns) == Some(i),
    decreases mv.len(),
{
    assert(mv.take(i + 1).drop_last() =~= mv.take(i));
    if mv.len() > i + 1 {
        assert(mv.drop_last().take(i) =~= mv.take(i));
        lemma_mapping_index_prefix(mv.drop_last(), ns, i);
    } else {
        assert(mv.take(i + 1) =~= mv);
    }
}

fn copy_mapping(m: &TolgeeMappedFile) -> (r: TolgeeMappedFile)
    ensures
        mapping_view(r) == mapping_view(*m),
{
    TolgeeMappedFile {
        namespace: m.namespace.clone(),
        relative_path: m.relative_path.clone(),
        absolute_path: m.absolute_path.clone(),
    }
}

proof fn lemma_selected_err_sticks(
    ms: Seq<(Seq<char>, Seq<char>, Seq<char>)>,
    ns: Seq<Seq<char>>,
    i: int,
    e: Seq<char>,
)
    requires
        0 <= i <= ns.len(),
        selected_mappings(ms, ns, i) == Err::<Seq<(Seq<char>, Seq<char>, Seq<char>)>, Seq<char>>(e),
    ensures
        selected_mappings(ms, ns, ns.len() as int) == Err::<
            Seq<(Seq<char>, Seq<char>, Seq<char>)>,
            Seq<char>,
        >(e),
    decreases ns.len() - i,
{
    if i < ns.len() {
        lemma_selected_err_sticks(ms, ns, i + 1, e);
    }
}

/// The mappings a run works on.
pub fn select_mappings(mappings: &Vec<TolgeeMappedFile>, namespaces: &Vec<String>) -> (r: Result<
    Vec<TolgeeMappedFile>,
    String,
>)
    ensures
        namespaces@.len() == 0 ==> (r matches Ok(v) && mappings_view(v@) == mappings_view(
            mappings@,
        )),
        namespaces@.len() > 0 ==> match selected_mappings(
            mappings_view(mappings@),
            strings_view(namespaces@),
            namespaces@.len() as int,
        ) {
            Ok(sel) => r matches Ok(v) && mappings_view(v@) == sel,
            Err(e) => r matches Err(m) && m@ == e,
        },
{
    let ghost mv = mappings_view(mappings@);
    let ghost nv = strings_view(namespaces@);
    if namespaces.len() == 0 {
        let mut all: Vec<TolgeeMappedFile> = Vec::new();
        let mut i: usize = 0;
        while i < mappings.len()
            invariant
                i <= mappings@.len(),
                all@.len() == i,
                forall|j: int| 0 <= j < i ==> mapping_view(#[trigger] all@[j]) == mapping_view(mappings@[j]),
            decreases mappings.len() - i,
        {
            all.push(copy_mapping(&mappings[i]));
            i = i + 1;
        }
        assert(mappings_view(all@) =~= mappings_view(mappings@));
        return Ok(all);
    }
    let mut selected: Vec<TolgeeMappedFile> = Vec::new();
    let mut k: usize = 0;
    assert(mappings_view(selected@) =~= Seq::<(Seq<char>, Seq<char>, Seq<char>)>::empty());
    while k < namespaces.len()
        invariant
            k <= namespaces@.len(),
            mv == mappings_view(mappings@),
            nv == strings_view(namespaces@),
            selected_mappings(mv, nv, k as int) == Ok::<
                Seq<(Seq<char>, Seq<char>, Seq<char>)>,
                Seq<char>,
            >(mappings_view(selected@)),
        decreases namespaces.len() - k,
    {
        let ns = namespaces[k].as_str();
        assert(nv[k as int] == ns@);
        match find_mapping(mappings, ns) {
            None => {
                let mut e = String::from_str("Tolgee namespace '");
                e.append(ns);
                e.append("' is not configured in push.files");
                proof {
                    lemma_selected_err_sticks(mv, nv, k + 1, e@);
                }
                return Err(e);
            },
            Some(i) => {
                proof {
                    lemma_mapping_index(mv, ns@);
                }
                let ghost before = mappings_view(selected@);
                let m = &mappings[i];
                assert(mv[i as int] == mapping_view(*m));
                if find_mapping(&selected, m.namespace.as_str()).is_none() {
                    selected.push(copy_mapping(m));
                    assert(mappings_view(selected@) =~= before.push(mv[i as int]));
                }
            },
        }
        k = k + 1;
    }
    Ok(selected)
}

/// A Tolgee project as the sync commands read it.
#[derive(Debug, Clone)]
pub struct TolgeeProject {
    pub config_path: String,
    pub project_root: String,
    pub user_api_key: Option<String>,
    /// The pull file-structure template, such as `/{namespace}/Localizable.{extension}`.
    pub pull_template: String,
    pub mappings: Vec<TolgeeMappedFile>,
}

/// Where the catalog of a namespace lands in a pull: the template with the
/// namespace and the `xcstrings` extension filled in, below the pull root. A
/// template with a language tag, or with any other placeholder, is refused.
pub open spec fn pulled_path(template: Seq<char>, root: Seq<char>, namespace: Seq<char>) -> Result<
    Seq<char>,
    Seq<char>,
> {
    if crate::editor::contains_text(template, "{languageTag}"@) {
        Err(
            "Tolgee pull.fileStructureTemplate with {languageTag} is not supported for APPLE_XCSTRINGS in v1"@,
        )
    } else {
        let relative = crate::text::replace_text(
            crate::text::replace_text(template, "{namespace}"@, namespace),
            "{extension}"@,
            "xcstrings"@,
        );
        if has_char(relative, '{') {
            Err("Unsupported placeholders in Tolgee pull.fileStructureTemplate: "@ + template)
        } else {
            Ok(crate::path_glob::pushed(root, crate::text::strip_leading(relative, '/')))
        }
    }
}

pub fn pulled_path_for_namespace(project: &TolgeeProject, pull_root: &str, namespace: &str) -> (r:
    Result<String, String>)
    ensures
        crate::convert::text_result_view(r) == pulled_path(
            project.pull_template@,
            pull_root@,
            namespace@,
        ),
{
    proof {
        reveal_strlit("{namespace}");
        reveal_strlit("{extension}");
    }
    let template = project.pull_template.as_str();
    if crate::editor::str_contains(template, "{languageTag}") {
        return Err(
            String::from_str(
                "Tolgee pull.fileStructureTemplate with {languageTag} is not supported for APPLE_XCSTRINGS in v1",
            ),
        );
    }
    let with_ns = crate::text::replace_str(template, "{namespace}", namespace);
    let relative = crate::text::replace_str(with_ns.as_str(), "{extension}", "xcstrings");
    let rv = chars_of(relative.as_str());
    if contains_char(rv.as_slice(), '{') {
        return Err(
            crate::text::cat("Unsupported placeholders in Tolgee pull.fileStructureTemplate: ", template),
        );
    }
    let stripped = crate::text::strip_leading_chars(relative.as_str(), '/');
    Ok(push_path(pull_root, stripped.as_str()))
}

fn push_path(base: &str, component: &str) -> (r: String)
    ensures
        r@ == crate::path_glob::pushed(base@, component@),
{
    if crate::text::str_starts_with(component, "/") {
        return String::from_str(component);
    }
    if base.unicode_len() == 0 || crate::text::str_ends_with(base, "/") {
        crate::text::cat(base, component)
    } else {
        crate::text::cat3(base, "/", component)
    }
}

/// The components of `cs` pushed onto an empty path one by one.
pub open spec fn pushed_all(cs: Seq<Seq<char>>, n: int) -> Seq<char>
    decreases n,
{
    if n <= 0 {
        Seq::empty()
    } else {
        crate::path_glob::pushed(pushed_all(cs, n - 1), cs[n - 1])
    }
}

/// A path rebuilt from its components, which drops `.` components and
/// repeated separators.
pub fn normalize_path(path: &str) -> (r: String)
    ensures
        r@ == pushed_all(
            crate::path_glob::path_components(path@),
            crate::path_glob::path_components(path@).len() as int,
        ),
{
    let cs = crate::path_glob::components_of(path);
    let ghost cv = strings_view(cs@);
    let mut out = String::new();
    let mut i: usize = 0;
    while i < cs.len()
        invariant
            i <= cs@.len(),
            cv == strings_view(cs@),
            out@ == pushed_all(cv, i as int),
        decreases cs.len() - i,
    {
        assert(cv[i as int] == cs@[i as int]@);
        out = push_path(out.as_str(), cs[i].as_str());
        i = i + 1;
    }
    out
}

/// A translation without text: empty, or a singular value that is blank.
pub open spec fn no_text(t: TranslationView) -> bool {
    match t {
        TranslationView::Empty => true,
        TranslationView::Singular(v) => trim(v).len() == 0,
        TranslationView::Plural(_, _) => false,
    }
}

pub fn translation_is_empty(translation: &Translation) -> (r: bool)
    ensures
        r == no_text(translation@),
{
    match translation {
        Translation::Empty => true,
        Translation::Singular(v) => {
            let c = chars_of(v.as_str());
            trim_chars(c.as_slice()).len() == 0
        },
        Translation::Plural(_) => false,
    }
}

/// Whether two translations are equal.
pub fn translation_eq(a: &Translation, b: &Translation) -> (r: bool)
    ensures
        r == (a@ == b@),
{
    match (a, b) {
        (Translation::Empty, Translation::Empty) => true,
        (Translation::Singular(x), Translation::Singular(y)) => str_eq(x.as_str(), y.as_str()),
        (Translation::Plural(p), Translation::Plural(q)) => {
            if !str_eq(p.id.as_str(), q.id.as_str()) {
                assert(a@ != b@);
                return false;
            }
            if p.forms.len() != q.forms.len() {
                assert(crate::model::forms_view(p.forms@).len() != crate::model::forms_view(
                    q.forms@,
                ).len());
                assert(a@ != b@);
                return false;
            }
            let mut i: usize = 0;
            while i < p.forms.len()
                invariant
                    i <= p.forms@.len(),
                    p.forms@.len() == q.forms@.len(),
                    a@ == TranslationView::Plural(p.id@, crate::model::forms_view(p.forms@)),
                    b@ == TranslationView::Plural(q.id@, crate::model::forms_view(q.forms@)),
                    forall|j: int|
                        0 <= j < i ==> crate::model::forms_view(p.forms@)[j]
                            == crate::model::forms_view(q.forms@)[j],
                decreases p.forms.len() - i,
            {
                if p.forms[i].0 != q.forms[i].0 || !str_eq(p.forms[i].1.as_str(), q.forms[i].1.as_str()) {
                    assert(crate::model::forms_view(p.forms@)[i as int] != crate::model::forms_view(
                        q.forms@,
                    )[i as int]);
                    assert(a@ != b@);
                    return false;
                }
                i = i + 1;
            }
            assert(crate::model::forms_view(p.forms@) =~= crate::model::forms_view(q.forms@));
            true
        },
        _ => false,
    }
}

/// A pulled language and the local language it is merged into.
#[derive(Debug, Clone)]
pub struct AllowedLanguageMapping {
    pub pulled_language: String,
    pub local_language: String,
}

pub open spec fn allowed_view(v: Seq<AllowedLanguageMapping>) -> Seq<(Seq<char>, Seq<char>)> {
    v.map_values(|m: AllowedLanguageMapping| (m.pulled_language@, m.local_language@))
}

/// The pulled tags whose primary language is `base`, in order.
pub open spec fn pulled_variants(avail: Seq<Seq<char>>, base: Seq<char>) -> Seq<Seq<char>>
    decreases avail.len(),
{
    if avail.len() == 0 {
        avail
    } else if first_segment(lang_identity(avail.last()), '-') == base {
        pulled_variants(avail.drop_last(), base).push(avail.last())
    } else {
        pulled_variants(avail.drop_last(), base)
    }
}

/// The pulled language a requested language reads from: the pulled language
/// of the same identity; else, for a bare language, its one regional variant
/// (several are refused); else the request itself.
pub open spec fn pulled_language_for(avail: Seq<Seq<char>>, req: Seq<char>) -> Result<
    Seq<char>,
    Seq<char>,
> {
    match identity_match(avail, req) {
        Some(i) => Ok(avail[i]),
        None => if has_char(lang_identity(req), '-') {
            Ok(req)
        } else {
            let vs = pulled_variants(avail, lang_identity(req));
            if vs.len() == 0 {
                Ok(req)
            } else if vs.len() == 1 {
                Ok(vs[0])
            } else {
                Err(
                    "Tolgee target language '"@ + req + "' is ambiguous; matching variants: "@
                        + join(vs.sort_by(identity_leq()), ", "@)
                        + ". Specify a fully-qualified target language"@,
                )
            }
        },
    }
}

/// The mappings for the first `n` requested languages: each the pulled
/// language it reads and the local language of its identity (else the
/// request), a mapping already listed (by identities) dropped.
pub open spec fn allowed_mappings(
    local: Seq<ResourceView>,
    avail: Seq<Seq<char>>,
    reqs: Seq<Seq<char>>,
    n: int,
) -> Result<Seq<(Seq<char>, Seq<char>)>, Seq<char>>
    decreases n,
{
    if n <= 0 {
        Ok(Seq::empty())
    } else {
        match allowed_mappings(local, avail, reqs, n - 1) {
            Err(e) => Err(e),
            Ok(prev) => match pulled_language_for(avail, reqs[n - 1]) {
                Err(e) => Err(e),
                Ok(p) => {
                    let l = match identity_match(languages_of(local), reqs[n - 1]) {
                        Some(i) => languages_of(local)[i],
                        None => reqs[n - 1],
                    };
                    if exists|j: int|
                        0 <= j < prev.len() && lang_identity(#[trigger] prev[j].0) == lang_identity(p)
                            && lang_identity(prev[j].1) == lang_identity(l) {
                        Ok(prev)
                    } else {
                        Ok(prev.push((p, l)))
                    }
                },
            },
        }
    }
}

/// No two languages share an identity.
pub open spec fn distinct_identities(langs: Seq<Seq<char>>) -> bool {
    forall|i: int, j: int|
        0 <= i < j < langs.len() ==> lang_identity(#[trigger] langs[i]) != lang_identity(
            #[trigger] langs[j],
        )
}

fn variants_of(avail: &Vec<String>, base: &Vec<char>) -> (r: Vec<String>)
    ensures
        strings_view(r@) == pulled_variants(strings_view(avail@), base@),
{
    let ghost av = strings_view(avail@);
    let mut r: Vec<String> = Vec::new();
    let mut i: usize = 0;
    assert(av.take(0) =~= Seq::<Seq<char>>::empty());
    assert(strings_view(r@) =~= Seq::<Seq<char>>::empty());
    while i < avail.len()
        invariant
            i <= avail@.len(),
            av == strings_view(avail@),
            strings_view(r@) == pulled_variants(av.take(i as int), base@),
        decreases avail.len() - i,
    {
        assert(av.take(i + 1).drop_last() =~= av.take(i as int));
        let n = normalize_lang(avail[i].as_str());
        let head = first_segment_of(n.as_slice(), '-');
        if chars_eq(head.as_slice(), base.as_slice()) {
            let ghost before = strings_view(r@);
            r.push(avail[i].clone());
            assert(strings_view(r@) =~= before.push(av[i as int]));
        }
        i = i + 1;
    }
    assert(av.take(i as int) =~= av);
    r
}

fn pulled_language(avail: &Vec<String>, requested: &str) -> (r: Result<String, String>)
    ensures
        crate::convert::text_result_view(r) == pulled_language_for(strings_view(avail@), requested@),
{
    if let Some(i) = identity_position(avail.as_slice(), requested) {
        proof {
            crate::languages::lemma_identity_match_bounds_pub(strings_view(avail@), requested@);
        }
        return Ok(avail[i].clone());
    }
    let n = normalize_lang(requested);
    if contains_char(n.as_slice(), '-') {
        return Ok(String::from_str(requested));
    }
    let vs = variants_of(avail, &n);
    if vs.len() == 0 {
        Ok(String::from_str(requested))
    } else if vs.len() == 1 {
        Ok(vs[0].clone())
    } else {
        let sorted = sort_by_identity(vs);
        let mut e = String::from_str("Tolgee target language '");
        e.append(requested);
        e.append("' is ambiguous; matching variants: ");
        e.append(join_strings(&sorted, ", ").as_str());
        e.append(". Specify a fully-qualified target language");
        Err(e)
    }
}

proof fn lemma_allowed_err_sticks(
    local: Seq<ResourceView>,
    avail: Seq<Seq<char>>,
    reqs: Seq<Seq<char>>,
    i: int,
    e: Seq<char>,
)
    requires
        0 <= i <= reqs.len(),
        allowed_mappings(local, avail, reqs, i) == Err::<Seq<(Seq<char>, Seq<char>)>, Seq<char>>(e),
    ensures
        allowed_mappings(local, avail, reqs, reqs.len() as int) == Err::<
            Seq<(Seq<char>, Seq<char>)>,
            Seq<char>,
        >(e),
    decreases reqs.len() - i,
{
    if i < reqs.len() {
        lemma_allowed_err_sticks(local, avail, reqs, i + 1, e);
    }
}

fn mapping_listed(resolved: &Vec<AllowedLanguageMapping>, pulled: &str, local: &str) -> (r: bool)
    ensures
        r == exists|j: int|
            0 <= j < allowed_view(resolved@).len() && lang_identity(
                #[trigger] allowed_view(resolved@)[j].0,
            ) == lang_identity(pulled@) && lang_identity(allowed_view(resolved@)[j].1)
                == lang_identity(local@),
{
    let ghost prev = allowed_view(resolved@);
    let mut j: usize = 0;
    while j < resolved.len()
        invariant
            j <= resolved@.len(),
            prev == allowed_view(resolved@),
            forall|t: int|
                0 <= t < j ==> !(lang_identity(#[trigger] prev[t].0) == lang_identity(pulled@)
                    && lang_identity(prev[t].1) == lang_identity(local@)),
        decreases resolved.len() - j,
    {
        if language_identity_eq(resolved[j].pulled_language.as_str(), pulled)
            && language_identity_eq(resolved[j].local_language.as_str(), local) {
            assert(prev[j as int].0 == resolved@[j as int].pulled_language@);
            assert(prev[j as int].1 == resolved@[j as int].local_language@);
            return true;
        }
        j = j + 1;
    }
    false
}

/// Resolves the requested languages of a merge against the pulled and the
/// local catalog.
pub fn resolve_allowed_languages(local_codec: &Codec, pulled_codec: &Codec, requested_languages: &[String]) -> (r:
    Result<Vec<AllowedLanguageMapping>, String>)
    ensures
        match allowed_mappings(
            local_codec@,
            languages_of(pulled_codec@),
            strings_view(requested_languages@),
            requested_languages@.len() as int,
        ) {
            Ok(ms) => r matches Ok(v) && allowed_view(v@) == ms,
            Err(e) => r matches Err(m) && m@ == e,
        },
{
    let avail = pulled_codec.languages();
    let ghost av = strings_view(avail@);
    let ghost rv = strings_view(requested_languages@);
    let mut resolved: Vec<AllowedLanguageMapping> = Vec::new();
    let mut k: usize = 0;
    assert(allowed_view(resolved@) =~= Seq::<(Seq<char>, Seq<char>)>::empty());
    while k < requested_languages.len()
        invariant
            k <= requested_languages@.len(),
            av == strings_view(avail@),
            av == languages_of(pulled_codec@),
            rv == strings_view(requested_languages@),
            allowed_mappings(local_codec@, av, rv, k as int) == Ok::<
                Seq<(Seq<char>, Seq<char>)>,
                Seq<char>,
            >(allowed_view(resolved@)),
        decreases requested_languages.len() - k,
    {
        let requested = requested_languages[k].as_str();
        assert(rv[k as int] == requested@);
        let pulled = match pulled_language(&avail, requested) {
            Ok(p) => p,
            Err(e) => {
                proof {
                    lemma_allowed_err_sticks(local_codec@, av, rv, k + 1, e@);
                }
                return Err(e);
            },
        };
        let local = match find_resource_by_language_identity(local_codec, requested) {
            Some(res) => res.metadata.language.clone(),
            None => String::from_str(requested),
        };
        proof {
            crate::languages::lemma_identity_match_bounds_pub(languages_of(local_codec@), requested@);
        }
        let ghost prev = allowed_view(resolved@);
        let seen = mapping_listed(&resolved, pulled.as_str(), local.as_str());
        let ghost pv = pulled@;
        let ghost lv = local@;
        if !seen {
            resolved.push(AllowedLanguageMapping { pulled_language: pulled, local_language: local });
            assert(allowed_view(resolved@) =~= prev.push((pv, lv)));
        }
        assert(allowed_mappings(local_codec@, av, rv, k + 1) == Ok::<
            Seq<(Seq<char>, Seq<char>)>,
            Seq<char>,
        >(allowed_view(resolved@)));
        k = k + 1;
    }
    Ok(resolved)
}

/// The counts of a merge.
#[derive(Debug, Clone, Copy, PartialEq, Eq, Structural)]
pub struct MergeReport {
    /// Entries written.
    pub merged: usize,
    /// Pulled entries whose key the local catalog does not have.
    pub skipped_new_keys: usize,
}

/// A merge in progress: the catalog and the counts so far.
pub struct MergeState {
    pub codec: Seq<ResourceView>,
    pub merged: int,
    pub skipped: int,
}

/// One pulled entry merged into the resource of `lang`: skipped when the
/// local catalog had no such key before the merge; ignored without text;
/// else written over the local entry (counted when that changes it) or added.
pub open spec fn merge_entry(
    st: MergeState,
    e: EntryView,
    lang: Seq<char>,
    existing: Seq<Seq<char>>,
) -> MergeState {
    let add = MergeState {
        codec: added(st.codec, e.id, lang, e.value, e.comment, Some(e.status)),
        merged: st.merged + 1,
        ..st
    };
    if !existing.contains(e.id) {
        MergeState { skipped: st.skipped + 1, ..st }
    } else if no_text(e.value) {
        st
    } else {
        match identity_match(languages_of(st.codec), lang) {
            Some(i) => match find_key(st.codec[i].entries, e.id) {
                Some(j) => {
                    let x = st.codec[i].entries[j];
                    if x.value != e.value || x.status != e.status || x.comment != e.comment {
                        MergeState {
                            codec: with_entry(
                                st.codec,
                                i,
                                j,
                                EntryView {
                                    id: x.id,
                                    value: e.value,
                                    comment: e.comment,
                                    status: e.status,
                                },
                            ),
                            merged: st.merged + 1,
                            ..st
                        }
                    } else {
                        st
                    }
                },
                None => add,
            },
            None => add,
        }
    }
}

pub open spec fn merge_entries(
    st: MergeState,
    es: Seq<EntryView>,
    n: int,
    lang: Seq<char>,
    existing: Seq<Seq<char>>,
) -> MergeState
    decreases n,
{
    if n <= 0 {
        st
    } else {
        merge_entry(merge_entries(st, es, n - 1, lang, existing), es[n - 1], lang, existing)
    }
}

/// The catalog with a resource for `meta` (without entries) unless one of
/// its identity is there, and the language of the resource to merge into.
pub open spec fn ensured_resource(rs: Seq<ResourceView>, meta: MetadataView) -> (
    Seq<ResourceView>,
    Seq<char>,
) {
    match identity_match(languages_of(rs), meta.language) {
        Some(i) => (rs, rs[i].metadata.language),
        None => (rs.push(ResourceView { metadata: meta, entries: Seq::empty() }), meta.language),
    }
}

pub fn ensure_resource(codec: &mut Codec, metadata: &Metadata) -> (r: String)
    ensures
        (final(codec)@, r@) == ensured_resource(old(codec)@, metadata@),
{
    proof {
        crate::languages::lemma_identity_match_bounds_pub(languages_of(codec@), metadata.language@);
    }
    match resource_identity_position(codec, metadata.language.as_str()) {
        Some(i) => codec.resources[i].metadata.language.clone(),
        None => {
            let res = Resource { metadata: metadata.copy(), entries: Vec::new() };
            assert(entries_view(res.entries@) =~= Seq::empty());
            codec.add_resource(res);
            metadata.language.clone()
        },
    }
}

/// One pulled resource merged into the local resource for `dest`.
pub open spec fn merge_into(st: MergeState, pr: ResourceView, dest: Seq<char>, existing: Seq<Seq<char>>) -> MergeState {
    let meta = MetadataView { language: dest, ..pr.metadata };
    let (rs, lang) = ensured_resource(st.codec, meta);
    merge_entries(MergeState { codec: rs, ..st }, pr.entries, pr.entries.len() as int, lang, existing)
}

/// The local languages that mappings send `lang` to, in order.
pub open spec fn mapped_destinations(ms: Seq<(Seq<char>, Seq<char>)>, lang: Seq<char>) -> Seq<Seq<char>>
    decreases ms.len(),
{
    if ms.len() == 0 {
        Seq::empty()
    } else if lang_identity(ms.last().0) == lang_identity(lang) {
        mapped_destinations(ms.drop_last(), lang).push(ms.last().1)
    } else {
        mapped_destinations(ms.drop_last(), lang)
    }
}

/// Where a pulled resource is merged: into its own language without
/// requested languages, else into the local languages its language maps to.
pub open spec fn destinations(pr: ResourceView, restricted: bool, ms: Seq<(Seq<char>, Seq<char>)>) -> Seq<
    Seq<char>,
> {
    if restricted {
        mapped_destinations(ms, pr.metadata.language)
    } else {
        seq![pr.metadata.language]
    }
}

pub open spec fn merge_destinations(
    st: MergeState,
    pr: ResourceView,
    ds: Seq<Seq<char>>,
    n: int,
    existing: Seq<Seq<char>>,
) -> MergeState
    decreases n,
{
    if n <= 0 {
        st
    } else {
        merge_into(merge_destinations(st, pr, ds, n - 1, existing), pr, ds[n - 1], existing)
    }
}

pub open spec fn merge_pulled(
    st: MergeState,
    pulled: Seq<ResourceView>,
    n: int,
    restricted: bool,
    ms: Seq<(Seq<char>, Seq<char>)>,
    existing: Seq<Seq<char>>,
) -> MergeState
    decreases n,
{
    if n <= 0 {
        st
    } else {
        let prev = merge_pulled(st, pulled, n - 1, restricted, ms, existing);
        let pr = pulled[n - 1];
        let ds = destinations(pr, restricted, ms);
        merge_destinations(prev, pr, ds, ds.len() as int, existing)
    }
}

/// What merging a pulled catalog makes of a local one: both must hold each
/// language identity once; the requested languages must resolve; then every
/// pulled resource is merged, in order, into its destinations.
pub open spec fn merged_catalog(
    local: Seq<ResourceView>,
    pulled: Seq<ResourceView>,
    reqs: Seq<Seq<char>>,
) -> Result<MergeState, Seq<char>> {
    match crate::languages::unique_identities_check(languages_of(local), "Local catalog"@) {
        Err(e) => Err(e),
        Ok(()) => match crate::languages::unique_identities_check(
            languages_of(pulled),
            "Pulled Tolgee catalog"@,
        ) {
            Err(e) => Err(e),
            Ok(()) => match allowed_mappings(local, languages_of(pulled), reqs, reqs.len() as int) {
                Err(e) => Err(e),
                Ok(ms) => Ok(
                    merge_pulled(
                        MergeState { codec: local, merged: 0, skipped: 0 },
                        pulled,
                        pulled.len() as int,
                        reqs.len() > 0,
                        ms,
                        crate::editor::catalog_keys(local),
                    ),
                ),
            },
        },
    }
}

/// The number of entries of the resources.
pub open spec fn entry_total(rs: Seq<ResourceView>) -> nat
    decreases rs.len(),
{
    if rs.len() == 0 {
        0
    } else {
        entry_total(rs.drop_last()) + rs.last().entries.len()
    }
}

proof fn lemma_entry_total_prefix(rs: Seq<ResourceView>, p: int)
    requires
        0 <= p < rs.len(),
    ensures
        entry_total(rs.take(p + 1)) == entry_total(rs.take(p)) + rs[p].entries.len(),
        entry_total(rs.take(p + 1)) <= entry_total(rs),
    decreases rs.len() - p,
{
    assert(rs.take(p + 1).drop_last() =~= rs.take(p));
    if p + 1 < rs.len() {
        lemma_entry_total_prefix(rs, p + 1);
    } else {
        assert(rs.take(p + 1) =~= rs);
    }
}

proof fn lemma_allowed_len(
    local: Seq<ResourceView>,
    avail: Seq<Seq<char>>,
    reqs: Seq<Seq<char>>,
    n: int,
)
    requires
        0 <= n,
    ensures
        allowed_mappings(local, avail, reqs, n) matches Ok(ms) ==> ms.len() <= n,
    decreases n,
{
    if n > 0 {
        lemma_allowed_len(local, avail, reqs, n - 1);
    }
}

proof fn lemma_destinations_len(ms: Seq<(Seq<char>, Seq<char>)>, lang: Seq<char>)
    ensures
        mapped_destinations(ms, lang).len() <= ms.len(),
    decreases ms.len(),
{
    if ms.len() > 0 {
        lemma_destinations_len(ms.drop_last(), lang);
    }
}

fn destinations_of(pr: &Resource, restricted: bool, mappings: &Vec<AllowedLanguageMapping>) -> (r: Vec<String>)
    ensures
        strings_view(r@) == destinations(pr@, restricted, allowed_view(mappings@)),
{
    let mut r: Vec<String> = Vec::new();
    if !restricted {
        r.push(pr.metadata.language.clone());
        assert(strings_view(r@) =~= seq![pr@.metadata.language]);
        return r;
    }
    let ghost mv = allowed_view(mappings@);
    let mut i: usize = 0;
    assert(mv.take(0) =~= Seq::<(Seq<char>, Seq<char>)>::empty());
    assert(strings_view(r@) =~= Seq::<Seq<char>>::empty());
    while i < mappings.len()
        invariant
            i <= mappings@.len(),
            mv == allowed_view(mappings@),
            strings_view(r@) == mapped_destinations(mv.take(i as int), pr@.metadata.language),
        decreases mappings.len() - i,
    {
        assert(mv.take(i + 1).drop_last() =~= mv.take(i as int));
        assert(mv[i as int] == (mappings@[i as int].pulled_language@, mappings@[i as int].local_language@));
        if language_identity_eq(mappings[i].pulled_language.as_str(), pr.metadata.language.as_str()) {
            let ghost before = strings_view(r@);
            r.push(mappings[i].local_language.clone());
            assert(strings_view(r@) =~= before.push(mv[i as int].1));
        }
        i = i + 1;
    }
    assert(mv.take(i as int) =~= mv);
    r
}

fn opt_text_eq(a: &Option<String>, b: &Option<String>) -> (r: bool)
    ensures
        r == (opt_seq(*a) == opt_seq(*b)),
{
    match (a, b) {
        (Some(x), Some(y)) => str_eq(x.as_str(), y.as_str()),
        (None, None) => true,
        _ => false,
    }
}

fn key_listed(keys: &Vec<String>, id: &str) -> (r: bool)
    ensures
        r == strings_view(keys@).contains(id@),
{
    let mut j: usize = 0;
    while j < keys.len()
        invariant
            j <= keys@.len(),
            forall|k: int| 0 <= k < j ==> (#[trigger] keys@[k])@ != id@,
        decreases keys.len() - j,
    {
        if str_eq(keys[j].as_str(), id) {
            assert(strings_view(keys@)[j as int] == id@);
            return true;
        }
        j = j + 1;
    }
    assert forall|k: int| 0 <= k < strings_view(keys@).len() implies #[trigger] strings_view(
        keys@,
    )[k] != id@ by {
        assert(strings_view(keys@)[k] == keys@[k]@);
    }
    false
}

/// Merges one pulled entry into the resource of `lang`; the counts grow by
/// at most one.
fn merge_one(
    local: &mut Codec,
    report: &mut MergeReport,
    entry: &Entry,
    lang: &String,
    existing: &Vec<String>,
)
    requires
        old(report).merged + old(report).skipped_new_keys < usize::MAX,
    ensures
        ({
            let st = merge_entry(
                MergeState {
                    codec: old(local)@,
                    merged: old(report).merged as int,
                    skipped: old(report).skipped_new_keys as int,
                },
                entry@,
                lang@,
                strings_view(existing@),
            );
            &&& final(local)@ == st.codec
            &&& final(report).merged == st.merged
            &&& final(report).skipped_new_keys == st.skipped
        }),
        final(report).merged + final(report).skipped_new_keys <= old(report).merged
            + old(report).skipped_new_keys + 1,
        no_text(entry@.value) ==> final(local)@ == old(local)@ && final(report).merged == old(
            report,
        ).merged,
{
    if !key_listed(existing, entry.id.as_str()) {
        report.skipped_new_keys = report.skipped_new_keys + 1;
        return;
    }
    if translation_is_empty(&entry.value) {
        return;
    }
    if let Some(i) = resource_identity_position(local, lang.as_str()) {
        if let Some(j) = key_position(&local.resources[i].entries, entry.id.as_str()) {
            proof {
                lemma_find_key_bounds(local@[i as int].entries, entry.id@);
            }
            let x = &local.resources[i].entries[j];
            if !translation_eq(&x.value, &entry.value) || x.status != entry.status || !opt_text_eq(
                &x.comment,
                &entry.comment,
            ) {
                let e2 = Entry {
                    id: x.id.clone(),
                    value: entry.value.copy(),
                    comment: crate::model::copy_opt_string(&entry.comment),
                    status: entry.status,
                };
                local.set_entry(i, j, e2);
                report.merged = report.merged + 1;
            }
            return;
        }
    }
    let _ = local.add_entry(
        entry.id.as_str(),
        lang.as_str(),
        entry.value.copy(),
        crate::model::copy_opt_string(&entry.comment),
        Some(entry.status),
    );
    report.merged = report.merged + 1;
}

/// How many merge steps a merge may take, at most: every pulled entry, once
/// per requested language (once without requests).
pub open spec fn merge_bound(pulled: Seq<ResourceView>, requested: nat) -> int {
    entry_total(pulled) * (if requested == 0 {
        1
    } else {
        requested as int
    })
}

/// Merges a pulled Tolgee catalog into a local one.
pub fn merge_tolgee_catalog(local_codec: &mut Codec, pulled_codec: &Codec, allowed_langs: &[String]) -> (r:
    Result<MergeReport, String>)
    requires
        merge_bound(pulled_codec@, allowed_langs@.len()) <= usize::MAX,
    ensures
        match merged_catalog(old(local_codec)@, pulled_codec@, strings_view(allowed_langs@)) {
            Err(e) => r matches Err(m) && m@ == e && final(local_codec)@ == old(local_codec)@,
            Ok(st) => r matches Ok(rep) && rep.merged == st.merged && rep.skipped_new_keys
                == st.skipped && final(local_codec)@ == st.codec,
        },
{
    match crate::languages::validate_unique_language_identities(local_codec, "Local catalog") {
        Err(e) => return Err(e),
        Ok(()) => {},
    }
    match crate::languages::validate_unique_language_identities(pulled_codec, "Pulled Tolgee catalog") {
        Err(e) => return Err(e),
        Ok(()) => {},
    }
    let mappings = match resolve_allowed_languages(local_codec, pulled_codec, allowed_langs) {
        Ok(m) => m,
        Err(e) => return Err(e),
    };
    let ghost ms = allowed_view(mappings@);
    proof {
        lemma_allowed_len(local_codec@, languages_of(pulled_codec@), strings_view(allowed_langs@), allowed_langs@.len() as int);
    }
    let existing = crate::editor::collect_keys(local_codec);
    let ghost ex = strings_view(existing@);
    let restricted = allowed_langs.len() > 0;
    let ghost k: int = if allowed_langs@.len() == 0 {
        1
    } else {
        allowed_langs@.len() as int
    };
    let ghost pv = pulled_codec@;
    let ghost start = MergeState { codec: old(local_codec)@, merged: 0, skipped: 0 };
    let mut report = MergeReport { merged: 0, skipped_new_keys: 0 };
    let mut p: usize = 0;
    while p < pulled_codec.resources.len()
        invariant
            p <= pv.len(),
            pv == pulled_codec@,
            ms == allowed_view(mappings@),
            ms.len() <= allowed_langs@.len(),
            restricted == (allowed_langs@.len() > 0),
            k == (if allowed_langs@.len() == 0 { 1 } else { allowed_langs@.len() as int }),
            ex == strings_view(existing@),
            ex == crate::editor::catalog_keys(old(local_codec)@),
            start == (MergeState { codec: old(local_codec)@, merged: 0, skipped: 0 }),
            entry_total(pv) * k <= usize::MAX,
            ({
                let st = merge_pulled(start, pv, p as int, restricted, ms, ex);
                &&& local_codec@ == st.codec
                &&& report.merged == st.merged
                &&& report.skipped_new_keys == st.skipped
            }),
            report.merged + report.skipped_new_keys <= k * entry_total(pv.take(p as int)),
        decreases pv.len() - p,
    {
        let pr = &pulled_codec.resources[p];
        assert(pv[p as int] == pr@);
        let dests = destinations_of(pr, restricted, &mappings);
        let ghost ds = strings_view(dests@);
        let ghost e_p = pr@.entries.len() as int;
        proof {
            lemma_entry_total_prefix(pv, p as int);
            if restricted {
                lemma_destinations_len(ms, pr@.metadata.language);
            }
            assert(ds.len() <= k);
            assert(k * entry_total(pv.take(p + 1)) <= k * entry_total(pv)) by (nonlinear_arith)
                requires
                    entry_total(pv.take(p + 1)) <= entry_total(pv),
                    k >= 1,
            ;
            assert(k * entry_total(pv.take(p + 1)) == k * entry_total(pv.take(p as int)) + k
                * e_p) by (nonlinear_arith)
                requires
                    entry_total(pv.take(p + 1)) == entry_total(pv.take(p as int)) + e_p,
            ;
        }
        let ghost base: int = report.merged + report.skipped_new_keys;
        let ghost before = merge_pulled(start, pv, p as int, restricted, ms, ex);
        let mut d: usize = 0;
        while d < dests.len()
            invariant
                d <= ds.len(),
                ds == strings_view(dests@),
                ds.len() <= k,
                pr@ == pv[p as int],
                e_p == pr@.entries.len(),
                ex == strings_view(existing@),
                base + k * e_p <= usize::MAX,
                ({
                    let st = merge_destinations(before, pr@, ds, d as int, ex);
                    &&& local_codec@ == st.codec
                    &&& report.merged == st.merged
                    &&& report.skipped_new_keys == st.skipped
                }),
                report.merged + report.skipped_new_keys <= base + d * e_p,
            decreases ds.len() - d,
        {
            let meta = Metadata {
                language: dests[d].clone(),
                domain: pr.metadata.domain.clone(),
                custom: crate::model::copy_pairs(&pr.metadata.custom),
            };
            assert(meta@ == (MetadataView { language: ds[d as int], ..pr@.metadata }));
            let lang = ensure_resource(local_codec, &meta);
            let ghost mid = merge_destinations(before, pr@, ds, d as int, ex);
            let ghost entered = MergeState {
                codec: ensured_resource(mid.codec, meta@).0,
                ..mid
            };
            let ghost dbase: int = report.merged + report.skipped_new_keys;
            proof {
                assert(d * e_p + e_p <= k * e_p) by (nonlinear_arith)
                    requires
                        d < k,
                        e_p >= 0,
                ;
            }
            let mut e: usize = 0;
            while e < pr.entries.len()
                invariant
                    e <= pr@.entries.len(),
                    e_p == pr@.entries.len(),
                    ex == strings_view(existing@),
                    dbase + e_p <= usize::MAX,
                    ({
                        let st = merge_entries(entered, pr@.entries, e as int, lang@, ex);
                        &&& local_codec@ == st.codec
                        &&& report.merged == st.merged
                        &&& report.skipped_new_keys == st.skipped
                    }),
                    report.merged + report.skipped_new_keys <= dbase + e,
                decreases pr@.entries.len() - e,
            {
                assert(pr@.entries[e as int] == pr.entries@[e as int]@);
                merge_one(local_codec, &mut report, &pr.entries[e], &lang, &existing);
                e = e + 1;
            }
            proof {
                assert(d * e_p + e_p == (d + 1) * e_p) by (nonlinear_arith);
            }
            d = d + 1;
        }
        proof {
            assert(ds.len() * e_p <= k * e_p) by (nonlinear_arith)
                requires
                    ds.len() <= k,
                    e_p >= 0,
            ;
        }
        p = p + 1;
    }
    Ok(report)
}

/// What the credential lookup reads of a Tolgee configuration: whether it
/// sets its own `apiKey`, and its `projectId` (a number, or a string of
/// digits).
#[derive(Debug, Clone, Copy)]
pub struct TolgeeCredentialFacts {
    pub has_api_key: bool,
    pub project_id: Option<u64>,
}

/// The user's API key for a Tolgee project: none when the project
/// configuration sets its own key; else the user's key for that project, else
/// the user's default key.
pub open spec fn user_api_key_for(
    facts: TolgeeCredentialFacts,
    user: Option<crate::config::UserConfig>,
) -> Option<Seq<char>> {
    if facts.has_api_key {
        None
    } else {
        match user {
            Some(u) => crate::config::or_else(
                u.tolgee.project_key(facts.project_id),
                crate::config::opt_string(u.tolgee.api_key),
            ),
            None => None,
        }
    }
}

pub fn resolve_tolgee_user_api_key(
    facts: &TolgeeCredentialFacts,
    user_config: Option<&crate::config::UserConfig>,
) -> (r: Option<String>)
    requires
        user_config matches Some(u) ==> u.tolgee.projects_unique(),
    ensures
        crate::model::opt_seq(r) == user_api_key_for(
            *facts,
            match user_config {
                Some(u) => Some(*u),
                None => None,
            },
        ),
{
    if facts.has_api_key {
        return None;
    }
    match user_config {
        Some(u) => match u.tolgee.api_key_for_project(facts.project_id) {
            Some(k) => Some(String::from_str(k)),
            None => None,
        },
        None => None,
    }
}

/// The Tolgee runtime configuration a `[tolgee]` section of `langcodec.toml`
/// stands for, as plain values: what the Tolgee CLI's JSON configuration
/// holds.
#[derive(Debug, Clone)]
pub struct TolgeeRuntimeConfig {
    pub format: String,
    /// `(path, namespace)` of each pushed catalog.
    pub push_files: Vec<(String, String)>,
    pub pull_path: String,
    pub file_structure_template: String,
    pub schema: Option<String>,
    pub project_id: Option<u64>,
    pub api_url: Option<String>,
    pub api_key: Option<String>,
    pub push_languages: Option<Vec<String>>,
    pub force_mode: Option<String>,
}

pub open spec fn files_view(files: Seq<crate::config::TolgeePushFileConfig>) -> Seq<(Seq<char>, Seq<char>)> {
    files.map_values(|f: crate::config::TolgeePushFileConfig| (f.path@, f.namespace@))
}

pub open spec fn pairs_of(v: Seq<(String, String)>) -> Seq<(Seq<char>, Seq<char>)> {
    v.map_values(|x: (String, String)| (x.0@, x.1@))
}

pub open spec fn or_default(o: Option<Seq<char>>, d: Seq<char>) -> Seq<char> {
    match o {
        Some(x) => x,
        None => d,
    }
}

/// The runtime configuration of an inline `[tolgee]` section: at least one
/// pushed catalog is needed; the format defaults to `APPLE_XCSTRINGS`, the
/// pull path to `./tolgee-temp`, and the pull template to
/// `/{namespace}/Localizable.{extension}`; the rest is carried over.
pub open spec fn runtime_config_ok(t: crate::config::TolgeeConfig, r: TolgeeRuntimeConfig) -> bool {
    &&& r.format@ == or_default(opt_seq(t.format), "APPLE_XCSTRINGS"@)
    &&& pairs_of(r.push_files@) == files_view(t.push.files@)
    &&& r.pull_path@ == or_default(opt_seq(t.pull.path), "./tolgee-temp"@)
    &&& r.file_structure_template@ == or_default(
        opt_seq(t.pull.file_structure_template),
        "/{namespace}/Localizable.{extension}"@,
    )
    &&& opt_seq(r.schema) == opt_seq(t.schema)
    &&& r.project_id == t.project_id
    &&& opt_seq(r.api_url) == opt_seq(t.api_url)
    &&& opt_seq(r.api_key) == opt_seq(t.api_key)
    &&& crate::config::opt_list_owned(r.push_languages) == crate::config::opt_list_owned(t.push.languages)
    &&& opt_seq(r.force_mode) == opt_seq(t.push.force_mode)
}

fn copy_list(v: &Vec<String>) -> (r: Vec<String>)
    ensures
        strings_view(r@) == strings_view(v@),
{
    let mut r: Vec<String> = Vec::new();
    let mut i: usize = 0;
    while i < v.len()
        invariant
            i <= v@.len(),
            r@.len() == i,
            forall|j: int| 0 <= j < i ==> #[trigger] r@[j]@ == v@[j]@,
        decreases v.len() - i,
    {
        r.push(v[i].clone());
        i = i + 1;
    }
    assert(strings_view(r@) =~= strings_view(v@));
    r
}

fn or_default_string(o: &Option<String>, d: &str) -> (r: String)
    ensures
        r@ == or_default(opt_seq(*o), d@),
{
    match o {
        Some(x) => x.clone(),
        None => String::from_str(d),
    }
}

pub fn runtime_config_from_toml(tolgee: &crate::config::TolgeeConfig) -> (r: Result<TolgeeRuntimeConfig, String>)
    ensures
        tolgee.push.files@.len() == 0 ==> (r matches Err(e) && e@
            == "Tolgee [push.files] must contain at least one mapping"@),
        tolgee.push.files@.len() > 0 ==> (r matches Ok(c) && runtime_config_ok(*tolgee, c)),
{
    if tolgee.push.files.len() == 0 {
        return Err(String::from_str("Tolgee [push.files] must contain at least one mapping"));
    }
    let mut files: Vec<(String, String)> = Vec::new();
    let mut i: usize = 0;
    while i < tolgee.push.files.len()
        invariant
            i <= tolgee.push.files@.len(),
            files@.len() == i,
            forall|j: int| 0 <= j < i ==> #[trigger] pairs_of(files@)[j] == files_view(tolgee.push.files@)[j],
        decreases tolgee.push.files.len() - i,
    {
        let ghost before = pairs_of(files@);
        files.push((tolgee.push.files[i].path.clone(), tolgee.push.files[i].namespace.clone()));
        assert(pairs_of(files@) =~= before.push(files_view(tolgee.push.files@)[i as int]));
        i = i + 1;
    }
    assert(pairs_of(files@) =~= files_view(tolgee.push.files@));
    Ok(
        TolgeeRuntimeConfig {
            format: or_default_string(&tolgee.format, "APPLE_XCSTRINGS"),
            push_files: files,
            pull_path: or_default_string(&tolgee.pull.path, "./tolgee-temp"),
            file_structure_template: or_default_string(
                &tolgee.pull.file_structure_template,
                "/{namespace}/Localizable.{extension}",
            ),
            schema: crate::model::copy_opt_string(&tolgee.schema),
            project_id: tolgee.project_id,
            api_url: crate::model::copy_opt_string(&tolgee.api_url),
            api_key: crate::model::copy_opt_string(&tolgee.api_key),
            push_languages: match &tolgee.push.languages {
                Some(v) => Some(copy_list(v)),
                None => None,
            },
            force_mode: crate::model::copy_opt_string(&tolgee.push.force_mode),
        },
    )
}

/// The Tolgee format a configuration must declare.
pub open spec fn format_check(format: Option<Seq<char>>) -> Result<(), Seq<char>> {
    match format {
        None => Err("Tolgee config is missing 'format'"@),
        Some(f) => if f == "APPLE_XCSTRINGS"@ {
            Ok(())
        } else {
            Err("Unsupported Tolgee format '"@ + f + "'. v1 supports only APPLE_XCSTRINGS"@)
        },
    }
}

pub fn check_tolgee_format(format: Option<&str>) -> (r: Result<(), String>)
    ensures
        match format_check(crate::config::opt_str(format)) {
            Ok(()) => r is Ok,
            Err(e) => r matches Err(m) && m@ == e,
        },
{
    match format {
        None => Err(String::from_str("Tolgee config is missing 'format'")),
        Some(f) => if str_eq(f, "APPLE_XCSTRINGS") {
            Ok(())
        } else {
            Err(crate::text::cat3("Unsupported Tolgee format '", f, "'. v1 supports only APPLE_XCSTRINGS"))
        },
    }
}

/// Where a pushed catalog lives: its path read from the project root, with
/// `.` components and repeated separators dropped.
pub open spec fn mapped_path(project_root: Seq<char>, path: Seq<char>) -> Seq<char> {
    let joined = crate::config::config_relative(Some(project_root), path);
    pushed_all(crate::path_glob::path_components(joined), crate::path_glob::path_components(joined).len() as int)
}

/// The mappings of a project's pushed catalogs, in order; none is refused.
pub fn project_mappings(project_root: &str, files: &Vec<(String, String)>) -> (r: Result<
    Vec<TolgeeMappedFile>,
    String,
>)
    ensures
        files@.len() == 0 ==> (r matches Err(e) && e@ == "Tolgee config push.files is empty"@),
        files@.len() > 0 ==> (r matches Ok(v) && v@.len() == files@.len() && forall|i: int|
            0 <= i < files@.len() ==> #[trigger] mapping_view(v@[i]) == (
                files@[i].1@,
                files@[i].0@,
                mapped_path(project_root@, files@[i].0@),
            )),
{
    if files.len() == 0 {
        return Err(String::from_str("Tolgee config push.files is empty"));
    }
    let mut out: Vec<TolgeeMappedFile> = Vec::new();
    let mut i: usize = 0;
    while i < files.len()
        invariant
            i <= files@.len(),
            out@.len() == i,
            forall|j: int|
                0 <= j < i ==> #[trigger] mapping_view(out@[j]) == (
                    files@[j].1@,
                    files@[j].0@,
                    mapped_path(project_root@, files@[j].0@),
                ),
        decreases files.len() - i,
    {
        let joined = crate::config::resolve_config_relative_path(Some(project_root), files[i].0.as_str());
        let absolute = normalize_path(joined.as_str());
        out.push(
            TolgeeMappedFile {
                namespace: files[i].1.clone(),
                relative_path: files[i].0.clone(),
                absolute_path: absolute,
            },
        );
        i = i + 1;
    }
    Ok(out)
}

/// The pull template of a configuration, or the default one.
pub fn pull_template_or_default(template: Option<&str>) -> (r: String)
    ensures
        r@ == or_default(crate::config::opt_str(template), "/{namespace}/Localizable.{extension}"@),
{
    match template {
        Some(t) => String::from_str(t),
        None => String::from_str("/{namespace}/Localizable.{extension}"),
    }
}

/// The first mapping whose catalog is at `resolved` (compared as paths).
pub open spec fn mapping_for_catalog(ms: Seq<(Seq<char>, Seq<char>, Seq<char>)>, resolved: Seq<char>) -> Option<int>
    decreases ms.len(),
{
    if ms.len() == 0 {
        None
    } else if crate::paths::path_eq(ms[0].2, resolved) {
        Some(0)
    } else {
        match mapping_for_catalog(ms.drop_first(), resolved) {
            Some(k) => Some(k + 1),
            None => None,
        }
    }
}

pub fn find_mapping_for_catalog(mappings: &Vec<TolgeeMappedFile>, resolved: &str) -> (r: Option<usize>)
    ensures
        match r {
            Some(i) => mapping_for_catalog(mappings_view(mappings@), resolved@) == Some(i as int) && i
                < mappings@.len(),
            None => mapping_for_catalog(mappings_view(mappings@), resolved@) is None,
        },
{
    let ghost mv = mappings_view(mappings@);
    let mut i: usize = 0;
    assert(mv.skip(0) =~= mv);
    while i < mappings.len()
        invariant
            i <= mappings@.len(),
            mv == mappings_view(mappings@),
            mapping_for_catalog(mv, resolved@) == match mapping_for_catalog(mv.skip(i as int), resolved@) {
                Some(k) => Some(k + i),
                None => None,
            },
        decreases mappings.len() - i,
    {
        assert(mv.skip(i as int).drop_first() =~= mv.skip(i + 1));
        assert(mv.skip(i as int)[0] == mapping_view(mappings@[i as int]));
        if crate::paths::paths_equal(mappings[i].absolute_path.as_str(), resolved) {
            return Some(i);
        }
        i = i + 1;
    }
    assert(mv.skip(i as int).len() == 0);
    None
}

/// What a translate run does with Tolgee before translating.
#[derive(Debug, Clone)]
pub enum PrefillStep {
    /// Nothing: Tolgee is off, or the catalog is not mapped and no namespace
    /// was asked for.
    Skip,
    /// Pull the namespace the catalog is mapped to and merge it.
    Pull(String),
}

/// The prefill decision, given the namespace the local catalog is mapped to
/// (if any).
pub open spec fn prefill_plan(
    enabled: bool,
    mapped_namespace: Option<Seq<char>>,
    namespaces: Seq<Seq<char>>,
    catalog: Seq<char>,
) -> Result<Option<Seq<char>>, Seq<char>> {
    if !enabled {
        Ok(None)
    } else {
        match mapped_namespace {
            None => if namespaces.len() == 0 {
                Ok(None)
            } else {
                Err("Catalog '"@ + catalog + "' is not configured in Tolgee push.files"@)
            },
            Some(ns) => if namespaces.len() > 0 && !namespaces.contains(ns) {
                Err(
                    "Catalog '"@ + catalog + "' maps to Tolgee namespace '"@ + ns
                        + "' which is not included in --tolgee-namespace/[tolgee].namespaces"@,
                )
            } else {
                Ok(Some(ns))
            },
        }
    }
}

pub fn plan_tolgee_prefill(
    settings: &TranslateTolgeeSettings,
    mapped_namespace: Option<&str>,
    catalog: &str,
) -> (r: Result<PrefillStep, String>)
    ensures
        match prefill_plan(
            settings.enabled,
            crate::config::opt_str(mapped_namespace),
            strings_view(settings.namespaces@),
            catalog@,
        ) {
            Ok(None) => r matches Ok(PrefillStep::Skip),
            Ok(Some(ns)) => r matches Ok(PrefillStep::Pull(n)) && n@ == ns,
            Err(e) => r matches Err(m) && m@ == e,
        },
{
    if !settings.enabled {
        return Ok(PrefillStep::Skip);
    }
    match mapped_namespace {
        None => if settings.namespaces.len() == 0 {
            Ok(PrefillStep::Skip)
        } else {
            Err(crate::text::cat3("Catalog '", catalog, "' is not configured in Tolgee push.files"))
        },
        Some(ns) => {
            let ghost nv = strings_view(settings.namespaces@);
            let mut listed = false;
            let mut i: usize = 0;
            while i < settings.namespaces.len()
                invariant
                    i <= settings.namespaces@.len(),
                    nv == strings_view(settings.namespaces@),
                    listed == exists|j: int| 0 <= j < i && nv[j] == ns@,
                decreases settings.namespaces.len() - i,
            {
                if str_eq(settings.namespaces[i].as_str(), ns) {
                    listed = true;
                }
                assert(nv[i as int] == settings.namespaces@[i as int]@);
                i = i + 1;
            }
            if settings.namespaces.len() > 0 && !listed {
                assert(!nv.contains(ns@));
                let mut m = String::from_str("Catalog '");
                m.append(catalog);
                m.append("' maps to Tolgee namespace '");
                m.append(ns);
                m.append("' which is not included in --tolgee-namespace/[tolgee].namespaces");
                Err(m)
            } else {
                proof {
                    if nv.len() > 0 {
                        let j = choose|j: int| 0 <= j < nv.len() && nv[j] == ns@;
                        assert(nv.contains(ns@));
                    }
                }
                Ok(PrefillStep::Pull(String::from_str(ns)))
            }
        },
    }
}

/// A Tolgee configuration file in JSON (by its extension, in any case).
pub open spec fn json_config(config_path: Seq<char>) -> bool {
    match crate::paths::path_extension(config_path) {
        Some(e) => crate::text::eq_ignore_case(e, "json"@),
        None => false,
    }
}

/// Whether a Tolgee CLI call needs a generated overlay configuration: unless
/// the project's own JSON file can be used as it is (no namespaces and no
/// pull root to set).
pub open spec fn overlay_needed(config_path: Seq<char>, namespaces_empty: bool, pull_root_given: bool) -> bool {
    !(json_config(config_path) && namespaces_empty && !pull_root_given)
}

pub fn needs_overlay_config(config_path: &str, namespaces: &Vec<String>, pull_root_given: bool) -> (r: bool)
    ensures
        r == overlay_needed(config_path@, namespaces@.len() == 0, pull_root_given),
{
    let json = match crate::paths::extension_of(config_path) {
        Some(e) => {
            let v = chars_of(e.as_str());
            crate::text::eq_ignore_case_str(v.as_slice(), "json")
        },
        None => false,
    };
    !(json && namespaces.len() == 0 && !pull_root_given)
}

/// The line that closes a pull.
pub open spec fn pull_closing_line(dry_run: bool, changed_files: nat) -> Seq<char> {
    if dry_run {
        "Dry-run mode: no files were written"@
    } else {
        "Tolgee pull complete: updated "@ + crate::text::decimal(changed_files) + " file(s)"@
    }
}

pub fn pull_closing(dry_run: bool, changed_files: usize) -> (r: String)
    ensures
        r@ == pull_closing_line(dry_run, changed_files as nat),
{
    if dry_run {
        String::from_str("Dry-run mode: no files were written")
    } else {
        let mut m = String::from_str("Tolgee pull complete: updated ");
        let n = crate::text::usize_to_string(changed_files);
        m.append(n.as_str());
        m.append(" file(s)");
        m
    }
}

/// Whether a merged catalog is written back: when something was merged,
/// outside a dry run.
pub open spec fn writes_merged(merged: usize, dry_run: bool) -> bool {
    merged > 0 && !dry_run
}

pub fn should_write_merged(report: &MergeReport, dry_run: bool) -> (r: bool)
    ensures
        r == writes_merged(report.merged, dry_run),
{
    report.merged > 0 && !dry_run
}

/// A push with no selected mapping is refused.
pub fn check_push_selection(mappings: &Vec<TolgeeMappedFile>) -> (r: Result<(), String>)
    ensures
        mappings@.len() == 0 ==> (r matches Err(e) && e@ == "No Tolgee namespaces matched the request"@),
        mappings@.len() > 0 ==> r is Ok,
{
    if mappings.len() == 0 {
        Err(String::from_str("No Tolgee namespaces matched the request"))
    } else {
        Ok(())
    }
}

/// Every entry of the catalog has one of the given keys.
pub open spec fn keys_within(rs: Seq<ResourceView>, keys: Seq<Seq<char>>) -> bool {
    forall|i: int, j: int|
        0 <= i < rs.len() && 0 <= j < rs[i].entries.len() ==> keys.contains(#[trigger] rs[i].entries[j].id)
}

proof fn lemma_catalog_keys_cover(rs: Seq<ResourceView>)
    ensures
        keys_within(rs, crate::editor::catalog_keys(rs)),
    decreases rs.len(),
{
    if rs.len() > 0 {
        let t = rs.drop_last();
        lemma_catalog_keys_cover(t);
        let ck = crate::editor::catalog_keys(rs);
        let ct = crate::editor::catalog_keys(t);
        let ek = crate::editor::entry_keys(rs.last().entries);
        assert(ck == ct + ek);
        assert forall|i: int, j: int| 0 <= i < rs.len() && 0 <= j < rs[i].entries.len() implies ck.contains(
            #[trigger] rs[i].entries[j].id,
        ) by {
            if i < rs.len() - 1 {
                assert(rs[i] == t[i]);
                assert(ct.contains(t[i].entries[j].id));
                let k = choose|k: int| 0 <= k < ct.len() && ct[k] == t[i].entries[j].id;
                assert(ck[k] == ct[k]);
            } else {
                assert(ek[j] == rs[i].entries[j].id);
                assert(ck[ct.len() + j] == ek[j]);
            }
        }
    }
}

proof fn lemma_merge_entry_keys(st: MergeState, e: EntryView, lang: Seq<char>, existing: Seq<Seq<char>>)
    requires
        keys_within(st.codec, existing),
    ensures
        keys_within(merge_entry(st, e, lang, existing).codec, existing),
{
    let rs = st.codec;
    if existing.contains(e.id) && !no_text(e.value) {
        let r2 = merge_entry(st, e, lang, existing).codec;
        let ne = EntryView {
            id: e.id,
            value: e.value,
            comment: e.comment,
            status: e.status,
        };
        match identity_match(languages_of(rs), lang) {
            Some(i) => {
                crate::languages::lemma_identity_match_bounds_pub(languages_of(rs), lang);
                match find_key(rs[i].entries, e.id) {
                    Some(j) => {
                        lemma_find_key_bounds(rs[i].entries, e.id);
                        assert forall|a: int, b: int| 0 <= a < r2.len() && 0 <= b < r2[a].entries.len() implies existing.contains(
                            #[trigger] r2[a].entries[b].id,
                        ) by {
                            if a == i && b == j {
                                assert(r2[a].entries[b].id == rs[i].entries[j].id);
                            } else {
                                assert(r2[a].entries[b].id == rs[a].entries[b].id);
                            }
                        }
                    },
                    None => {
                        let r3 = crate::model::added(rs, e.id, lang, e.value, e.comment, Some(e.status));
                        crate::model::lemma_find_language_bounds(rs, lang);
                        assert forall|a: int, b: int| 0 <= a < r3.len() && 0 <= b < r3[a].entries.len() implies existing.contains(
                            #[trigger] r3[a].entries[b].id,
                        ) by {
                            match crate::model::find_language(rs, lang) {
                                Some(k) => {
                                    if a == k && b == rs[k].entries.len() {
                                        assert(r3[a].entries[b].id == e.id);
                                    } else {
                                        assert(r3[a].entries[b].id == rs[a].entries[b].id);
                                    }
                                },
                                None => {
                                    if a == rs.len() {
                                        assert(r3[a].entries[b].id == e.id);
                                    } else {
                                        assert(r3[a] == rs[a]);
                                    }
                                },
                            }
                        }
                    },
                }
            },
            None => {
                let r3 = crate::model::added(rs, e.id, lang, e.value, e.comment, Some(e.status));
                crate::model::lemma_find_language_bounds(rs, lang);
                assert forall|a: int, b: int| 0 <= a < r3.len() && 0 <= b < r3[a].entries.len() implies existing.contains(
                    #[trigger] r3[a].entries[b].id,
                ) by {
                    match crate::model::find_language(rs, lang) {
                        Some(k) => {
                            if a == k && b == rs[k].entries.len() {
                                assert(r3[a].entries[b].id == e.id);
                            } else {
                                assert(r3[a].entries[b].id == rs[a].entries[b].id);
                            }
                        },
                        None => {
                            if a == rs.len() {
                                assert(r3[a].entries[b].id == e.id);
                            } else {
                                assert(r3[a] == rs[a]);
                            }
                        },
                    }
                }
            },
        }
    }
}

proof fn lemma_merge_entries_keys(
    st: MergeState,
    es: Seq<EntryView>,
    n: int,
    lang: Seq<char>,
    existing: Seq<Seq<char>>,
)
    requires
        keys_within(st.codec, existing),
    ensures
        keys_within(merge_entries(st, es, n, lang, existing).codec, existing),
    decreases n,
{
    if n > 0 {
        lemma_merge_entries_keys(st, es, n - 1, lang, existing);
        lemma_merge_entry_keys(merge_entries(st, es, n - 1, lang, existing), es[n - 1], lang, existing);
    }
}

proof fn lemma_merge_into_keys(st: MergeState, pr: ResourceView, dest: Seq<char>, existing: Seq<Seq<char>>)
    requires
        keys_within(st.codec, existing),
    ensures
        keys_within(merge_into(st, pr, dest, existing).codec, existing),
{
    let meta = MetadataView { language: dest, ..pr.metadata };
    let (rs, lang) = ensured_resource(st.codec, meta);
    assert(keys_within(rs, existing)) by {
        assert forall|a: int, b: int| 0 <= a < rs.len() && 0 <= b < rs[a].entries.len() implies existing.contains(
            #[trigger] rs[a].entries[b].id,
        ) by {
            if a < st.codec.len() {
                assert(rs[a] == st.codec[a]);
            }
        }
    }
    lemma_merge_entries_keys(MergeState { codec: rs, ..st }, pr.entries, pr.entries.len() as int, lang, existing);
}

proof fn lemma_merge_destinations_keys(
    st: MergeState,
    pr: ResourceView,
    ds: Seq<Seq<char>>,
    n: int,
    existing: Seq<Seq<char>>,
)
    requires
        keys_within(st.codec, existing),
    ensures
        keys_within(merge_destinations(st, pr, ds, n, existing).codec, existing),
    decreases n,
{
    if n > 0 {
        lemma_merge_destinations_keys(st, pr, ds, n - 1, existing);
        lemma_merge_into_keys(merge_destinations(st, pr, ds, n - 1, existing), pr, ds[n - 1], existing);
    }
}

proof fn lemma_merge_pulled_keys(
    st: MergeState,
    pulled: Seq<ResourceView>,
    n: int,
    restricted: bool,
    ms: Seq<(Seq<char>, Seq<char>)>,
    existing: Seq<Seq<char>>,
)
    requires
        keys_within(st.codec, existing),
    ensures
        keys_within(merge_pulled(st, pulled, n, restricted, ms, existing).codec, existing),
    decreases n,
{
    if n > 0 {
        lemma_merge_pulled_keys(st, pulled, n - 1, restricted, ms, existing);
        let prev = merge_pulled(st, pulled, n - 1, restricted, ms, existing);
        let ds = destinations(pulled[n - 1], restricted, ms);
        lemma_merge_destinations_keys(prev, pulled[n - 1], ds, ds.len() as int, existing);
    }
}

/// A Tolgee merge adds no key: every key of the merged catalog is a key the
/// local catalog had before.
pub proof fn lemma_merge_adds_no_keys(local: Seq<ResourceView>, pulled: Seq<ResourceView>, reqs: Seq<Seq<char>>)
    ensures
        merged_catalog(local, pulled, reqs) matches Ok(st) ==> keys_within(
            st.codec,
            crate::editor::catalog_keys(local),
        ),
{
    let existing = crate::editor::catalog_keys(local);
    lemma_catalog_keys_cover(local);
    match allowed_mappings(local, languages_of(pulled), reqs, reqs.len() as int) {
        Ok(ms) => {
            lemma_merge_pulled_keys(
                MergeState { codec: local, merged: 0, skipped: 0 },
                pulled,
                pulled.len() as int,
                reqs.len() > 0,
                ms,
                existing,
            );
        },
        Err(_) => {},
    }
}

/// A pulled entry without text (empty, or a blank singular value) changes
/// neither the local catalog nor the merged count: a merge never overwrites
/// a local value with an empty one. When the local catalog knew the key, the
/// whole merge state is left as it was.
pub proof fn lemma_merge_ignores_entries_without_text(
    st: MergeState,
    e: EntryView,
    lang: Seq<char>,
    existing: Seq<Seq<char>>,
)
    requires
        no_text(e.value),
    ensures
        merge_entry(st, e, lang, existing).codec == st.codec,
        merge_entry(st, e, lang, existing).merged == st.merged,
        existing.contains(e.id) ==> merge_entry(st, e, lang, existing) == st,
{
}

/// Merging pulled entries that all lack text leaves the local catalog and the
/// merged count as they were.
pub proof fn lemma_merge_entries_without_text(
    st: MergeState,
    es: Seq<EntryView>,
    n: int,
    lang: Seq<char>,
    existing: Seq<Seq<char>>,
)
    requires
        n <= es.len(),
        forall|i: int| 0 <= i < n ==> no_text(#[trigger] es[i].value),
    ensures
        merge_entries(st, es, n, lang, existing).codec == st.codec,
        merge_entries(st, es, n, lang, existing).merged == st.merged,
    decreases n,
{
    if n > 0 {
        lemma_merge_entries_without_text(st, es, n - 1, lang, existing);
        assert(no_text(es[n - 1].value));
        lemma_merge_ignores_entries_without_text(
            merge_entries(st, es, n - 1, lang, existing),
            es[n - 1],
            lang,
            existing,
        );
    }
}

} // verus!

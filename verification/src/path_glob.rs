//! Input patterns: which inputs are globs, where a walk for a glob starts,
//! and which walked files a set of globs selects (through `globset`).

use vstd::prelude::*;
use vstd::string::*;
use crate::config::join_path;
use crate::order::{sorted_unique, sorted_unique_texts};
use crate::paths::{parent_of, path_parent};
use crate::text::{chars_of, contains_char, has_char, starts_with, str_eq, str_starts_with, strings_view};

verus! {

broadcast use vstd::string::group_string_axioms;

/// The text holds a glob metacharacter: `*`, `?`, `[` or `{`.
pub open spec fn glob_meta(s: Seq<char>) -> bool {
    has_char(s, '*') || has_char(s, '?') || has_char(s, '[') || has_char(s, '{')
}

pub fn has_glob_meta(s: &str) -> (r: bool)
    ensures
        r == glob_meta(s@),
{
    let v = chars_of(s);
    contains_char(v.as_slice(), '*') || contains_char(v.as_slice(), '?') || contains_char(
        v.as_slice(),
        '[',
    ) || contains_char(v.as_slice(), '{')
}

/// The message `globset` gives when `pattern` (built with a literal
/// separator) is no valid glob; `None` when it is one.
pub uninterp spec fn glob_build_error(pattern: Seq<char>) -> Option<Seq<char>>;

/// Whether the glob `pattern` (built with a literal separator) matches `path`.
pub uninterp spec fn glob_matches(pattern: Seq<char>, path: Seq<char>) -> bool;

/// Builds `pattern` with `globset::GlobBuilder` (a literal separator
/// required). The contract claims that the error is the name above.
#[verifier::external_body]
fn build_glob(pattern: &str) -> (r: Result<(), String>)
    ensures
        match glob_build_error(pattern@) {
            Some(e) => r matches Err(m) && m@ == e,
            None => r is Ok,
        },
{
    globset::GlobBuilder::new(pattern).literal_separator(true).build().map(|_| ()).map_err(
        |e| e.to_string(),
    )
}

/// Builds `pattern` as above and matches `path` against it. The contract
/// claims that the error and the answer are the names above.
#[verifier::external_body]
fn glob_match(pattern: &str, path: &str) -> (r: Result<bool, String>)
    ensures
        match glob_build_error(pattern@) {
            Some(e) => r matches Err(m) && m@ == e,
            None => r == Ok::<bool, String>(glob_matches(pattern@, path@)),
        },
{
    globset::GlobBuilder::new(pattern).literal_separator(true).build().map(
        |g| g.compile_matcher().is_match(path),
    ).map_err(|e| e.to_string())
}

/// What `Path::components` gives for a path, each component as text.
pub uninterp spec fn path_components(path: Seq<char>) -> Seq<Seq<char>>;

/// The components of `path` (`Path::components`). The contract claims that
/// they are the name above.
#[verifier::external_body]
pub(crate) fn components_of(path: &str) -> (r: Vec<String>)
    ensures
        strings_view(r@) == path_components(path@),
{
    std::path::Path::new(path).components().map(
        |c| c.as_os_str().to_string_lossy().into_owned(),
    ).collect()
}

/// `PathBuf::push` on Unix: an absolute component replaces the path, any
/// other is joined on.
pub open spec fn pushed(base: Seq<char>, component: Seq<char>) -> Seq<char> {
    if starts_with(component, "/"@) {
        component
    } else {
        join_path(base, component)
    }
}

/// The leading components of `cs` before the first one with a glob
/// metacharacter, pushed together.
pub open spec fn static_prefix(cs: Seq<Seq<char>>, n: int) -> Seq<char>
    decreases n,
{
    if n <= 0 {
        Seq::empty()
    } else {
        pushed(static_prefix(cs, n - 1), cs[n - 1])
    }
}

/// Where a walk for a glob starts: the directories before the first component
/// with a glob metacharacter; `.` when there are none.
pub open spec fn walk_root(pattern: Seq<char>) -> Seq<char> {
    let cs = path_components(pattern);
    let p = static_prefix(cs, first_meta_component(cs));
    if p.len() == 0 {
        "."@
    } else {
        p
    }
}

/// The position of the first component with a glob metacharacter (the
/// number of components when none has one).
pub open spec fn first_meta_component(cs: Seq<Seq<char>>) -> int
    decreases cs.len(),
{
    if cs.len() == 0 {
        0
    } else if glob_meta(cs[0]) {
        0
    } else {
        1 + first_meta_component(cs.drop_first())
    }
}

proof fn lemma_first_meta(cs: Seq<Seq<char>>, i: int)
    requires
        0 <= i <= cs.len(),
        forall|j: int| 0 <= j < i ==> !glob_meta(#[trigger] cs[j]),
        i == cs.len() || glob_meta(cs[i]),
    ensures
        first_meta_component(cs) == i,
    decreases i,
{
    if i > 0 {
        assert forall|j: int| 0 <= j < i - 1 implies !glob_meta(#[trigger] cs.drop_first()[j]) by {
            assert(cs.drop_first()[j] == cs[j + 1]);
        }
        if i < cs.len() {
            assert(cs.drop_first()[i - 1] == cs[i]);
        }
        lemma_first_meta(cs.drop_first(), i - 1);
        assert(!glob_meta(cs[0]));
    }
}

fn push_component(base: String, component: &str) -> (r: String)
    ensures
        r@ == pushed(base@, component@),
{
    if str_starts_with(component, "/") {
        return String::from_str(component);
    }
    if base.unicode_len() == 0 || crate::text::str_ends_with(base.as_str(), "/") {
        let mut r = base;
        r.append(component);
        r
    } else {
        let mut r = base;
        r.append("/");
        r.append(component);
        r
    }
}

/// Where a walk for the glob `pattern` starts.
pub fn static_prefix_dir(pattern: &str) -> (r: String)
    ensures
        r@ == walk_root(pattern@),
{
    let cs = components_of(pattern);
    let ghost cv = strings_view(cs@);
    let mut root = String::new();
    let mut i: usize = 0;
    while i < cs.len() && !has_glob_meta(cs[i].as_str())
        invariant
            i <= cs@.len(),
            cv == strings_view(cs@),
            forall|j: int| 0 <= j < i ==> !glob_meta(#[trigger] cv[j]),
            root@ == static_prefix(cv, i as int),
        decreases cs.len() - i,
    {
        assert(cv[i as int] == cs@[i as int]@);
        root = push_component(root, cs[i].as_str());
        i = i + 1;
    }
    proof {
        if i < cs@.len() {
            assert(cv[i as int] == cs@[i as int]@);
        }
        lemma_first_meta(cv, i as int);
    }
    if root.unicode_len() == 0 {
        String::from_str(".")
    } else {
        root
    }
}

/// Where the walk for one input starts: for a glob its static prefix; for a
/// plain path its parent, or `.`.
pub open spec fn input_root(input: Seq<char>) -> Seq<char> {
    if glob_meta(input) {
        walk_root(input)
    } else {
        match path_parent(input) {
            Some(p) => p,
            None => "."@,
        }
    }
}

/// The distinct walk roots of the inputs, in the order they first occur.
pub open spec fn walk_roots(inputs: Seq<Seq<char>>) -> Seq<Seq<char>>
    decreases inputs.len(),
{
    if inputs.len() == 0 {
        Seq::empty()
    } else {
        let prev = walk_roots(inputs.drop_last());
        let r = input_root(inputs.last());
        if prev.contains(r) {
            prev
        } else {
            prev.push(r)
        }
    }
}

fn contains_text(list: &Vec<String>, s: &String) -> (r: bool)
    ensures
        r == strings_view(list@).contains(s@),
{
    let mut j: usize = 0;
    while j < list.len()
        invariant
            j <= list@.len(),
            forall|k: int| 0 <= k < j ==> (#[trigger] list@[k])@ != s@,
        decreases list.len() - j,
    {
        if str_eq(list[j].as_str(), s.as_str()) {
            assert(strings_view(list@)[j as int] == s@);
            return true;
        }
        j = j + 1;
    }
    assert forall|k: int| 0 <= k < strings_view(list@).len() implies #[trigger] strings_view(
        list@,
    )[k] != s@ by {
        assert(strings_view(list@)[k] == list@[k]@);
    }
    false
}

/// The directories to walk for a set of inputs.
pub fn input_walk_roots(inputs: &Vec<String>) -> (r: Vec<String>)
    ensures
        strings_view(r@) == walk_roots(strings_view(inputs@)),
{
    let ghost iv = strings_view(inputs@);
    let mut roots: Vec<String> = Vec::new();
    let mut i: usize = 0;
    assert(iv.take(0) =~= Seq::<Seq<char>>::empty());
    assert(strings_view(roots@) =~= Seq::<Seq<char>>::empty());
    while i < inputs.len()
        invariant
            i <= inputs@.len(),
            iv == strings_view(inputs@),
            strings_view(roots@) == walk_roots(iv.take(i as int)),
        decreases inputs.len() - i,
    {
        assert(iv.take(i + 1).drop_last() =~= iv.take(i as int));
        let pat = inputs[i].as_str();
        let root = if has_glob_meta(pat) {
            static_prefix_dir(pat)
        } else {
            match parent_of(pat) {
                Some(p) => p,
                None => String::from_str("."),
            }
        };
        if !contains_text(&roots, &root) {
            let ghost before = strings_view(roots@);
            roots.push(root);
            assert(strings_view(roots@) =~= before.push(input_root(iv[i as int])));
        }
        i = i + 1;
    }
    assert(iv.take(i as int) =~= iv);
    roots
}

/// The first input that is no valid glob, with its message.
pub open spec fn first_invalid_glob(inputs: Seq<Seq<char>>) -> Option<Seq<char>>
    decreases inputs.len(),
{
    if inputs.len() == 0 {
        None
    } else {
        match first_invalid_glob(inputs.drop_last()) {
            Some(e) => Some(e),
            None => match glob_build_error(inputs.last()) {
                Some(e) => Some("Invalid glob pattern '"@ + inputs.last() + "': "@ + e),
                None => None,
            },
        }
    }
}

/// Some pattern of `patterns` matches `path`.
pub open spec fn any_glob_matches(patterns: Seq<Seq<char>>, path: Seq<char>) -> bool {
    exists|i: int| 0 <= i < patterns.len() && glob_matches(#[trigger] patterns[i], path)
}

/// The walked paths some pattern matches, the first of each kept, in order.
pub open spec fn matched_paths(patterns: Seq<Seq<char>>, walked: Seq<Seq<char>>) -> Seq<Seq<char>>
    decreases walked.len(),
{
    if walked.len() == 0 {
        Seq::empty()
    } else {
        let prev = matched_paths(patterns, walked.drop_last());
        let p = walked.last();
        if any_glob_matches(patterns, p) && !prev.contains(p) {
            prev.push(p)
        } else {
            prev
        }
    }
}

/// What a set of input patterns expands to, given the files the walks from
/// their roots found (in walk order): the first invalid pattern refuses the
/// set; else the matched files, each once; the inputs themselves when
/// nothing matched.
pub open spec fn expanded_inputs(inputs: Seq<Seq<char>>, walked: Seq<Seq<char>>) -> Result<
    Seq<Seq<char>>,
    Seq<char>,
> {
    match first_invalid_glob(inputs) {
        Some(e) => Err(e),
        None => {
            let m = matched_paths(inputs, walked);
            if m.len() == 0 {
                Ok(inputs)
            } else {
                Ok(m)
            }
        },
    }
}

pub open spec fn list_result_view(r: Result<Vec<String>, String>) -> Result<
    Seq<Seq<char>>,
    Seq<char>,
> {
    match r {
        Ok(v) => Ok(strings_view(v@)),
        Err(e) => Err(e@),
    }
}

proof fn lemma_invalid_sticks(inputs: Seq<Seq<char>>, i: int, e: Seq<char>)
    requires
        0 <= i <= inputs.len(),
        first_invalid_glob(inputs.take(i)) == Some(e),
    ensures
        first_invalid_glob(inputs) == Some(e),
    decreases inputs.len() - i,
{
    if i < inputs.len() {
        assert(inputs.take(i + 1).drop_last() =~= inputs.take(i));
        lemma_invalid_sticks(inputs, i + 1, e);
    } else {
        assert(inputs.take(i) =~= inputs);
    }
}

fn matches_any(patterns: &Vec<String>, path: &str) -> (r: bool)
    requires
        first_invalid_glob(strings_view(patterns@)) is None,
    ensures
        r == any_glob_matches(strings_view(patterns@), path@),
{
    let ghost pv = strings_view(patterns@);
    let mut i: usize = 0;
    while i < patterns.len()
        invariant
            i <= patterns@.len(),
            pv == strings_view(patterns@),
            first_invalid_glob(pv) is None,
            forall|j: int| 0 <= j < i ==> !glob_matches(#[trigger] pv[j], path@),
        decreases patterns.len() - i,
    {
        proof {
            lemma_valid_each(pv, i as int);
        }
        assert(pv[i as int] == patterns@[i as int]@);
        match glob_match(patterns[i].as_str(), path) {
            Ok(true) => {
                return true;
            },
            _ => {},
        }
        i = i + 1;
    }
    false
}

proof fn lemma_valid_each(pv: Seq<Seq<char>>, i: int)
    requires
        0 <= i < pv.len(),
        first_invalid_glob(pv) is None,
    ensures
        glob_build_error(pv[i]) is None,
    decreases pv.len(),
{
    if i < pv.len() - 1 {
        assert(pv.drop_last()[i] == pv[i]);
        lemma_valid_each(pv.drop_last(), i);
    }
}

/// Expands input patterns against the files found by walking their roots.
pub fn expand_input_globs(inputs: &Vec<String>, walked: &Vec<String>) -> (r: Result<
    Vec<String>,
    String,
>)
    ensures
        list_result_view(r) == expanded_inputs(strings_view(inputs@), strings_view(walked@)),
{
    let ghost iv = strings_view(inputs@);
    let mut i: usize = 0;
    assert(iv.take(0) =~= Seq::<Seq<char>>::empty());
    while i < inputs.len()
        invariant
            i <= inputs@.len(),
            iv == strings_view(inputs@),
            first_invalid_glob(iv.take(i as int)) is None,
        decreases inputs.len() - i,
    {
        assert(iv.take(i + 1).drop_last() =~= iv.take(i as int));
        match build_glob(inputs[i].as_str()) {
            Err(e) => {
                let mut m = String::from_str("Invalid glob pattern '");
                m.append(inputs[i].as_str());
                m.append("': ");
                m.append(e.as_str());
                proof {
                    lemma_invalid_sticks(iv, i + 1, m@);
                }
                return Err(m);
            },
            Ok(()) => {},
        }
        i = i + 1;
    }
    assert(iv.take(i as int) =~= iv);
    let ghost wv = strings_view(walked@);
    let mut results: Vec<String> = Vec::new();
    let mut k: usize = 0;
    assert(wv.take(0) =~= Seq::<Seq<char>>::empty());
    assert(strings_view(results@) =~= Seq::<Seq<char>>::empty());
    while k < walked.len()
        invariant
            k <= walked@.len(),
            wv == strings_view(walked@),
            iv == strings_view(inputs@),
            first_invalid_glob(iv) is None,
            strings_view(results@) == matched_paths(iv, wv.take(k as int)),
        decreases walked.len() - k,
    {
        assert(wv.take(k + 1).drop_last() =~= wv.take(k as int));
        let p = &walked[k];
        if matches_any(inputs, p.as_str()) && !contains_text(&results, p) {
            let ghost before = strings_view(results@);
            results.push(p.clone());
            assert(strings_view(results@) =~= before.push(wv[k as int]));
        }
        k = k + 1;
    }
    assert(wv.take(k as int) =~= wv);
    if results.len() == 0 {
        return Ok(inputs.clone());
    }
    Ok(results)
}

/// One thing a directory walk met.
#[derive(Debug, Clone)]
pub enum WalkEntry {
    /// A file, by its path.
    File(String),
    /// Something other than a file.
    Other,
    /// An error, by its message.
    Failed(String),
}

/// The files and errors one check input expands to.
#[derive(Debug, Clone)]
pub struct UnfilteredGlobExpansion {
    pub paths: Vec<String>,
    pub errors: Vec<String>,
}

/// The walked files the glob matches, in walk order.
pub open spec fn walked_matches(pattern: Seq<char>, walked: Seq<WalkEntry>) -> Seq<Seq<char>>
    decreases walked.len(),
{
    if walked.len() == 0 {
        Seq::empty()
    } else {
        let prev = walked_matches(pattern, walked.drop_last());
        match walked.last() {
            WalkEntry::File(p) => if glob_matches(pattern, p@) {
                prev.push(p@)
            } else {
                prev
            },
            _ => prev,
        }
    }
}

/// The walk errors, each reported against the pattern, in walk order.
pub open spec fn walk_errors(pattern: Seq<char>, walked: Seq<WalkEntry>) -> Seq<Seq<char>>
    decreases walked.len(),
{
    if walked.len() == 0 {
        Seq::empty()
    } else {
        let prev = walk_errors(pattern, walked.drop_last());
        match walked.last() {
            WalkEntry::Failed(e) => prev.push(
                "Failed to traverse glob pattern '"@ + pattern + "': "@ + e@,
            ),
            _ => prev,
        }
    }
}

/// What one check input expands to, given what the walk from its root met: a
/// plain path is itself; an invalid glob is an error; else the matched files
/// and the walk errors, each sorted and once, and the input itself when both
/// are empty.
pub open spec fn unfiltered_expansion(input: Seq<char>, walked: Seq<WalkEntry>) -> (
    Seq<Seq<char>>,
    Seq<Seq<char>>,
) {
    if !glob_meta(input) {
        (seq![input], Seq::empty())
    } else {
        match glob_build_error(input) {
            Some(e) => (Seq::empty(), seq!["Invalid glob pattern '"@ + input + "': "@ + e]),
            None => {
                let paths = sorted_unique(walked_matches(input, walked));
                let errors = sorted_unique(walk_errors(input, walked));
                if paths.len() == 0 && errors.len() == 0 {
                    (seq![input], errors)
                } else {
                    (paths, errors)
                }
            },
        }
    }
}

/// Whether the input needs a walk: it is a valid glob.
pub fn glob_walk_needed(input: &str) -> (r: bool)
    ensures
        r == (glob_meta(input@) && glob_build_error(input@) is None),
{
    has_glob_meta(input) && build_glob(input).is_ok()
}

/// Expands one check input without ignore rules, given what the walk from
/// its root met.
pub fn expand_input_glob_unfiltered(input: &str, walked: &Vec<WalkEntry>) -> (r:
    UnfilteredGlobExpansion)
    ensures
        (strings_view(r.paths@), strings_view(r.errors@)) == unfiltered_expansion(
            input@,
            walked@,
        ),
{
    if !has_glob_meta(input) {
        let mut paths: Vec<String> = Vec::new();
        paths.push(String::from_str(input));
        let errors: Vec<String> = Vec::new();
        assert(strings_view(paths@) =~= seq![input@]);
        assert(strings_view(errors@) =~= Seq::<Seq<char>>::empty());
        return UnfilteredGlobExpansion { paths, errors };
    }
    match build_glob(input) {
        Err(e) => {
            let mut m = String::from_str("Invalid glob pattern '");
            m.append(input);
            m.append("': ");
            m.append(e.as_str());
            let paths: Vec<String> = Vec::new();
            let mut errors: Vec<String> = Vec::new();
            errors.push(m);
            assert(strings_view(paths@) =~= Seq::<Seq<char>>::empty());
            assert(strings_view(errors@) =~= seq![m@]);
            return UnfilteredGlobExpansion { paths, errors };
        },
        Ok(()) => {},
    }
    let mut paths: Vec<String> = Vec::new();
    let mut errors: Vec<String> = Vec::new();
    let mut i: usize = 0;
    assert(walked@.take(0) =~= Seq::<WalkEntry>::empty());
    assert(strings_view(paths@) =~= Seq::<Seq<char>>::empty());
    assert(strings_view(errors@) =~= Seq::<Seq<char>>::empty());
    while i < walked.len()
        invariant
            i <= walked@.len(),
            glob_build_error(input@) is None,
            strings_view(paths@) == walked_matches(input@, walked@.take(i as int)),
            strings_view(errors@) == walk_errors(input@, walked@.take(i as int)),
        decreases walked.len() - i,
    {
        assert(walked@.take(i + 1).drop_last() =~= walked@.take(i as int));
        assert(walked@.take(i + 1).last() == walked@[i as int]);
        let ghost p0 = strings_view(paths@);
        let ghost e0 = strings_view(errors@);
        match &walked[i] {
            WalkEntry::File(p) => {
                if let Ok(true) = glob_match(input, p.as_str()) {
                    paths.push(p.clone());
                    assert(strings_view(paths@) =~= p0.push(p@));
                }
            },
            WalkEntry::Other => {},
            WalkEntry::Failed(err) => {
                let mut m = String::from_str("Failed to traverse glob pattern '");
                m.append(input);
                m.append("': ");
                m.append(err.as_str());
                errors.push(m);
                assert(strings_view(errors@) =~= e0.push(m@));
            },
        }
        i = i + 1;
    }
    assert(walked@.take(i as int) =~= walked@);
    let mut paths = sorted_unique_texts(paths);
    let errors = sorted_unique_texts(errors);
    if paths.len() == 0 && errors.len() == 0 {
        paths.push(String::from_str(input));
        assert(strings_view(paths@) =~= seq![input@]);
    }
    UnfilteredGlobExpansion { paths, errors }
}

} // verus!

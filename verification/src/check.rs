//! The `check` command: issues found in localization files, their order, and
//! the placeholder comparison across the languages of one key.

use vstd::prelude::*;
use vstd::string::*;
use vstd::relations::{sorted_by, total_ordering};
use crate::order::{
    lemma_lex_asym, lemma_lex_irrefl, lemma_lex_total, lemma_lex_trans, lex_le, lex_less, lex_lt,
    sorted_unique, sorted_unique_texts,
};
use crate::text::{chars_of, decimal, join, join_strings, str_eq, strings_view, usize_to_string};
use crate::path_glob::{expand_input_glob_unfiltered, unfiltered_expansion, WalkEntry};
use crate::langid::langid_canonical;
use crate::model::{Codec, PluralCategory, ResourceView, Translation, TranslationView};

verus! {

broadcast use vstd::string::group_string_axioms, vstd::seq_lib::group_to_multiset_ensures;

/// The options of `check`.
#[derive(Debug)]
pub struct CheckOptions {
    pub inputs: Vec<String>,
    pub lang: Option<String>,
    pub json: bool,
    pub continue_on_error: bool,
    pub strict: bool,
}

/// What an issue is about, in the order issues of one path are listed.
#[derive(Debug, Clone, Copy, PartialEq, Eq, Structural)]
pub enum IssueKind {
    Input,
    Parse,
    Structure,
    Locale,
    Plural,
    Placeholder,
}

pub open spec fn kind_rank(k: IssueKind) -> int {
    match k {
        IssueKind::Input => 0,
        IssueKind::Parse => 1,
        IssueKind::Structure => 2,
        IssueKind::Locale => 3,
        IssueKind::Plural => 4,
        IssueKind::Placeholder => 5,
    }
}

pub open spec fn kind_text(k: IssueKind) -> Seq<char> {
    match k {
        IssueKind::Input => "input"@,
        IssueKind::Parse => "parse"@,
        IssueKind::Structure => "structure"@,
        IssueKind::Locale => "locale"@,
        IssueKind::Plural => "plural"@,
        IssueKind::Placeholder => "placeholder"@,
    }
}

impl IssueKind {
    /// The name a report gives the kind.
    pub fn name(&self) -> (r: &'static str)
        ensures
            r@ == kind_text(*self),
    {
        match self {
            IssueKind::Input => "input",
            IssueKind::Parse => "parse",
            IssueKind::Structure => "structure",
            IssueKind::Locale => "locale",
            IssueKind::Plural => "plural",
            IssueKind::Placeholder => "placeholder",
        }
    }

    /// The place of the kind among the issues of one path.
    pub fn rank(&self) -> (r: u8)
        ensures
            r == kind_rank(*self),
    {
        match self {
            IssueKind::Input => 0,
            IssueKind::Parse => 1,
            IssueKind::Structure => 2,
            IssueKind::Locale => 3,
            IssueKind::Plural => 4,
            IssueKind::Placeholder => 5,
        }
    }
}

/// One problem found by `check`: the first of its paths (kept for readers of
/// a single path), every path it implicates (sorted, each once), its kind and
/// its message.
#[derive(Debug)]
pub struct CheckIssue {
    pub path: String,
    pub paths: Vec<String>,
    pub kind: IssueKind,
    pub message: String,
}

pub struct IssueView {
    pub path: Seq<char>,
    pub paths: Seq<Seq<char>>,
    pub kind: IssueKind,
    pub message: Seq<char>,
}

impl View for CheckIssue {
    type V = IssueView;

    open spec fn view(&self) -> IssueView {
        IssueView {
            path: self.path@,
            paths: strings_view(self.paths@),
            kind: self.kind,
            message: self.message@,
        }
    }
}

pub open spec fn issues_view(s: Seq<CheckIssue>) -> Seq<IssueView> {
    s.map_values(|i: CheckIssue| i@)
}

/// The issue that `CheckIssue::new` makes: the paths sorted and each kept
/// once; the primary path is the first of them, or `<inputs>` when there is
/// none.
pub open spec fn new_issue(paths: Seq<Seq<char>>, kind: IssueKind, message: Seq<char>) -> IssueView {
    let ps = sorted_unique(paths);
    IssueView {
        path: if ps.len() > 0 {
            ps[0]
        } else {
            "<inputs>"@
        },
        paths: ps,
        kind: kind,
        message: message,
    }
}

/// The paths sorted, each once.
pub fn sorted_unique_paths(paths: &[String]) -> (r: Vec<String>)
    ensures
        strings_view(r@) == sorted_unique(strings_view(paths@)),
{
    let mut v: Vec<String> = Vec::new();
    let mut i: usize = 0;
    while i < paths.len()
        invariant
            i <= paths@.len(),
            v@.len() == i,
            forall|j: int| 0 <= j < i ==> #[trigger] v@[j]@ == paths@[j]@,
        decreases paths.len() - i,
    {
        v.push(paths[i].clone());
        i = i + 1;
    }
    assert(strings_view(v@) =~= strings_view(paths@));
    sorted_unique_texts(v)
}

/// The one sequence the sort of a one-element sequence gives.
pub proof fn lemma_sorted_unique_single(p: Seq<char>)
    ensures
        sorted_unique(seq![p]) == seq![p],
{
    let s = seq![p];
    crate::order::lemma_text_order();
    let t = s.sort_by(crate::order::text_leq());
    s.lemma_sort_by_ensures(crate::order::text_leq());
    assert(s.to_multiset().len() == 1);
    assert(t.to_multiset().len() == t.len());
    assert(t.len() == 1);
    assert(s.to_multiset().count(t[0]) > 0);
    assert(t[0] == p);
    assert(t =~= s);
    reveal_with_fuel(crate::order::dedup_adjacent, 2);
    assert(crate::order::dedup_adjacent(s) =~= s);
}

impl CheckIssue {
    /// An issue over some paths; they are sorted and each kept once.
    pub fn new(paths: Vec<String>, kind: IssueKind, message: String) -> (r: CheckIssue)
        ensures
            r@ == new_issue(strings_view(paths@), kind, message@),
    {
        let ps = sorted_unique_texts(paths);
        let path = if ps.len() > 0 {
            ps[0].clone()
        } else {
            String::from_str("<inputs>")
        };
        CheckIssue { path, paths: ps, kind, message }
    }

    /// An issue about one path.
    pub fn for_path(path: &str, kind: IssueKind, message: String) -> (r: CheckIssue)
        ensures
            r@ == new_issue(seq![path@], kind, message@),
            r@ == (IssueView { path: path@, paths: seq![path@], kind: kind, message: message@ }),
    {
        let mut ps: Vec<String> = Vec::new();
        ps.push(String::from_str(path));
        proof {
            assert(strings_view(ps@) =~= seq![path@]);
            lemma_sorted_unique_single(path@);
        }
        CheckIssue::new(ps, kind, message)
    }

    pub fn copy(&self) -> (r: CheckIssue)
        ensures
            r@ == self@,
    {
        let mut ps: Vec<String> = Vec::new();
        let mut i: usize = 0;
        while i < self.paths.len()
            invariant
                i <= self.paths@.len(),
                ps@.len() == i,
                forall|j: int| 0 <= j < i ==> #[trigger] ps@[j]@ == self.paths@[j]@,
            decreases self.paths.len() - i,
        {
            ps.push(self.paths[i].clone());
            i = i + 1;
        }
        assert(strings_view(ps@) =~= strings_view(self.paths@));
        CheckIssue {
            path: self.path.clone(),
            paths: ps,
            kind: self.kind,
            message: self.message.clone(),
        }
    }
}

/// The debug rendering of a string, what `<str as Debug>::fmt` writes (as
/// `format!("{:?}", s)` gives it): in double quotes, with `"`, `\\` and the
/// characters that Rust writes as escapes escaped; a `'` stays as it is.
pub uninterp spec fn debug_quoted(s: Seq<char>) -> Seq<char>;

/// Renders `s` with `format!("{:?}", s)`. The contract claims that the
/// result is the name above applied to `s`.
#[verifier::external_body]
fn debug_string(s: &str) -> (r: String)
    ensures
        r@ == debug_quoted(s@),
{
    format!("{:?}", s)
}

/// How a placeholder signature is shown: the debug rendering of the list,
/// each part quoted, separated by `, ` in brackets.
pub open spec fn rendered_signature(sig: Seq<Seq<char>>) -> Seq<char> {
    "["@ + join(sig.map_values(|p: Seq<char>| debug_quoted(p)), ", "@) + "]"@
}

pub fn render_signature(signature: &[String]) -> (r: String)
    ensures
        r@ == rendered_signature(strings_view(signature@)),
{
    let ghost sv = strings_view(signature@);
    let mut parts: Vec<String> = Vec::new();
    let mut i: usize = 0;
    while i < signature.len()
        invariant
            i <= signature@.len(),
            sv == strings_view(signature@),
            parts@.len() == i,
            forall|j: int| 0 <= j < i ==> #[trigger] parts@[j]@ == debug_quoted(sv[j]),
        decreases signature.len() - i,
    {
        let q = debug_string(signature[i].as_str());
        parts.push(q);
        i = i + 1;
    }
    assert(strings_view(parts@) =~= sv.map_values(|p: Seq<char>| debug_quoted(p)));
    let mut r = String::from_str("[");
    let joined = join_strings(&parts, ", ");
    r.append(joined.as_str());
    r.append("]");
    r
}

/// `a` comes strictly before `b` in the order of lists of strings (`Vec<String>`'s
/// `Ord`: element by element, a proper prefix first).
pub open spec fn list_lt(a: Seq<Seq<char>>, b: Seq<Seq<char>>) -> bool
    decreases a.len(),
{
    if a.len() == 0 {
        b.len() > 0
    } else if b.len() == 0 {
        false
    } else if a[0] != b[0] {
        lex_lt(a[0], b[0])
    } else {
        list_lt(a.drop_first(), b.drop_first())
    }
}

pub proof fn lemma_list_irrefl(a: Seq<Seq<char>>)
    ensures
        !list_lt(a, a),
    decreases a.len(),
{
    if a.len() > 0 {
        lemma_list_irrefl(a.drop_first());
    }
}

pub proof fn lemma_list_trans(a: Seq<Seq<char>>, b: Seq<Seq<char>>, c: Seq<Seq<char>>)
    requires
        list_lt(a, b),
        list_lt(b, c),
    ensures
        list_lt(a, c),
    decreases a.len(),
{
    if a.len() > 0 && b.len() > 0 && c.len() > 0 {
        if a[0] != b[0] {
            if b[0] != c[0] {
                lemma_lex_trans(a[0], b[0], c[0]);
                lemma_lex_irrefl(a[0]);
            }
        } else if b[0] != c[0] {
        } else {
            lemma_list_trans(a.drop_first(), b.drop_first(), c.drop_first());
        }
    }
}

pub proof fn lemma_list_total(a: Seq<Seq<char>>, b: Seq<Seq<char>>)
    ensures
        a == b || list_lt(a, b) || list_lt(b, a),
    decreases a.len(),
{
    if a.len() > 0 && b.len() > 0 && a[0] == b[0] {
        lemma_list_total(a.drop_first(), b.drop_first());
        if a.drop_first() == b.drop_first() {
            assert(a =~= b) by {
                assert(a == seq![a[0]] + a.drop_first());
                assert(b == seq![b[0]] + b.drop_first());
            }
        }
    } else if a.len() == 0 && b.len() == 0 {
        assert(a =~= b);
    } else if a.len() > 0 && b.len() > 0 {
        lemma_lex_total(a[0], b[0]);
    }
}

pub proof fn lemma_list_asym(a: Seq<Seq<char>>, b: Seq<Seq<char>>)
    requires
        list_lt(a, b),
    ensures
        !list_lt(b, a),
{
    if list_lt(b, a) {
        lemma_list_trans(a, b, a);
        lemma_list_irrefl(a);
    }
}

/// Issues in report order: by primary path, then kind, then all paths, then
/// message.
pub open spec fn issue_le(a: IssueView, b: IssueView) -> bool {
    lex_lt(a.path, b.path) || (a.path == b.path && (kind_rank(a.kind) < kind_rank(b.kind) || (
    a.kind == b.kind && (list_lt(a.paths, b.paths) || (a.paths == b.paths && lex_le(
        a.message,
        b.message,
    ))))))
}

pub open spec fn issue_order() -> spec_fn(IssueView, IssueView) -> bool {
    |a: IssueView, b: IssueView| issue_le(a, b)
}

/// The report order of issues is a total order.
pub proof fn lemma_issue_order()
    ensures
        total_ordering(issue_order()),
{
    let r = issue_order();
    assert forall|x: IssueView| #[trigger] r(x, x) by {}
    assert forall|x: IssueView, y: IssueView| #[trigger] r(x, y) && r(y, x) implies x == y by {
        if lex_lt(x.path, y.path) {
            lemma_lex_asym(x.path, y.path);
            lemma_lex_irrefl(x.path);
        } else if lex_lt(y.path, x.path) {
            lemma_lex_irrefl(y.path);
        } else if x.kind == y.kind {
            if list_lt(x.paths, y.paths) {
                lemma_list_asym(x.paths, y.paths);
                lemma_list_irrefl(x.paths);
            } else if list_lt(y.paths, x.paths) {
                lemma_list_irrefl(y.paths);
            } else if x.message != y.message {
                lemma_lex_asym(x.message, y.message);
            }
        }
    }
    assert forall|x: IssueView, y: IssueView, z: IssueView|
        #[trigger] r(x, y) && #[trigger] r(y, z) implies r(x, z) by {
        if lex_lt(x.path, y.path) && lex_lt(y.path, z.path) {
            lemma_lex_trans(x.path, y.path, z.path);
        } else if x.path == y.path && y.path == z.path && x.kind == y.kind && y.kind == z.kind {
            if list_lt(x.paths, y.paths) && list_lt(y.paths, z.paths) {
                lemma_list_trans(x.paths, y.paths, z.paths);
            } else if x.paths == y.paths && y.paths == z.paths {
                if x.message != y.message && y.message != z.message {
                    lemma_lex_trans(x.message, y.message, z.message);
                }
            }
        }
    }
    assert forall|x: IssueView, y: IssueView| #[trigger] r(x, y) || r(y, x) by {
        lemma_lex_total(x.path, y.path);
        lemma_list_total(x.paths, y.paths);
        lemma_lex_total(x.message, y.message);
    }
}

/// Whether two lists of strings are equal.
pub fn lists_equal(a: &Vec<String>, b: &Vec<String>) -> (r: bool)
    ensures
        r == (strings_view(a@) == strings_view(b@)),
{
    if a.len() != b.len() {
        assert(strings_view(a@).len() != strings_view(b@).len());
        return false;
    }
    let mut i: usize = 0;
    while i < a.len()
        invariant
            i <= a@.len(),
            a@.len() == b@.len(),
            forall|j: int| 0 <= j < i ==> #[trigger] a@[j]@ == b@[j]@,
        decreases a.len() - i,
    {
        if !str_eq(a[i].as_str(), b[i].as_str()) {
            assert(strings_view(a@)[i as int] != strings_view(b@)[i as int]);
            return false;
        }
        i = i + 1;
    }
    assert(strings_view(a@) =~= strings_view(b@));
    true
}

/// Whether list `a` comes strictly before list `b`.
pub fn list_less(a: &Vec<String>, b: &Vec<String>) -> (r: bool)
    ensures
        r == list_lt(strings_view(a@), strings_view(b@)),
{
    let ghost av = strings_view(a@);
    let ghost bv = strings_view(b@);
    let mut i: usize = 0;
    assert(av.skip(0) =~= av);
    assert(bv.skip(0) =~= bv);
    while i < a.len() && i < b.len() && str_eq(a[i].as_str(), b[i].as_str())
        invariant
            i <= a@.len(),
            i <= b@.len(),
            av == strings_view(a@),
            bv == strings_view(b@),
            list_lt(av, bv) == list_lt(av.skip(i as int), bv.skip(i as int)),
        decreases a.len() - i,
    {
        assert(av.skip(i as int).drop_first() =~= av.skip(i + 1));
        assert(bv.skip(i as int).drop_first() =~= bv.skip(i + 1));
        i = i + 1;
    }
    if i == a.len() {
        assert(av.skip(i as int).len() == 0);
        i < b.len()
    } else if i == b.len() {
        false
    } else {
        assert(av.skip(i as int)[0] == a@[i as int]@ && bv.skip(i as int)[0] == b@[i as int]@);
        let ac = chars_of(a[i].as_str());
        let bc = chars_of(b[i].as_str());
        lex_less(ac.as_slice(), bc.as_slice())
    }
}

/// Whether issue `a` comes no later than issue `b` in report order.
pub fn issue_before_or_same(a: &CheckIssue, b: &CheckIssue) -> (r: bool)
    ensures
        r == issue_le(a@, b@),
{
    let ap = chars_of(a.path.as_str());
    let bp = chars_of(b.path.as_str());
    if lex_less(ap.as_slice(), bp.as_slice()) {
        return true;
    }
    if !str_eq(a.path.as_str(), b.path.as_str()) {
        return false;
    }
    let (ra, rb) = (a.kind.rank(), b.kind.rank());
    if ra < rb {
        return true;
    }
    if ra != rb {
        return false;
    }
    if list_less(&a.paths, &b.paths) {
        return true;
    }
    if !lists_equal(&a.paths, &b.paths) {
        return false;
    }
    let am = chars_of(a.message.as_str());
    let bm = chars_of(b.message.as_str());
    str_eq(a.message.as_str(), b.message.as_str()) || lex_less(am.as_slice(), bm.as_slice())
}

/// Whether two issues are equal.
pub fn issues_equal(a: &CheckIssue, b: &CheckIssue) -> (r: bool)
    ensures
        r == (a@ == b@),
{
    str_eq(a.path.as_str(), b.path.as_str()) && lists_equal(&a.paths, &b.paths) && a.kind == b.kind
        && str_eq(a.message.as_str(), b.message.as_str())
}

/// `s` without the issues equal to the one before them (`Vec::dedup`).
pub open spec fn dedup_issues(s: Seq<IssueView>) -> Seq<IssueView>
    decreases s.len(),
{
    if s.len() == 0 {
        s
    } else if s.len() >= 2 && s[s.len() - 2] == s.last() {
        dedup_issues(s.drop_last())
    } else {
        dedup_issues(s.drop_last()).push(s.last())
    }
}

/// Puts issues in report order and drops repeated ones.
pub fn sort_issues(issues: &mut Vec<CheckIssue>)
    ensures
        issues_view(final(issues)@) == dedup_issues(issues_view(old(issues)@).sort_by(issue_order())),
{
    let mut src: Vec<CheckIssue> = Vec::new();
    std::mem::swap(&mut src, issues);
    let ghost sv = issues_view(src@);
    let mut r: Vec<CheckIssue> = Vec::new();
    let mut i: usize = 0;
    proof {
        lemma_issue_order();
    }
    while i < src.len()
        invariant
            i <= src@.len(),
            sv == issues_view(src@),
            total_ordering(issue_order()),
            sorted_by(issues_view(r@), issue_order()),
            issues_view(r@).to_multiset() == sv.take(i as int).to_multiset(),
        decreases src.len() - i,
    {
        let x = src[i].copy();
        let mut p: usize = 0;
        while p < r.len() && issue_before_or_same(&r[p], &x)
            invariant
                p <= r@.len(),
                forall|k: int| 0 <= k < p ==> issue_le(#[trigger] issues_view(r@)[k], x@),
            decreases r.len() - p,
        {
            p = p + 1;
        }
        let ghost before = issues_view(r@);
        proof {
            if p < r@.len() {
                assert(issue_order()(x@, before[p as int]) || issue_order()(before[p as int], x@));
            }
            crate::order::lemma_insert_sorted(before, p as int, x@, issue_order());
            assert(sv.take(i + 1) =~= sv.take(i as int).push(x@));
        }
        r.insert(p, x);
        assert(issues_view(r@) =~= before.insert(p as int, src@[i as int]@));
        i = i + 1;
    }
    let ghost sorted = issues_view(r@);
    proof {
        assert(sv.take(src@.len() as int) =~= sv);
        sv.lemma_sort_by_ensures(issue_order());
        vstd::seq_lib::lemma_sorted_unique(sorted, sv.sort_by(issue_order()), issue_order());
    }
    let mut out: Vec<CheckIssue> = Vec::new();
    let mut k: usize = 0;
    assert(sorted.take(0) =~= Seq::<IssueView>::empty());
    assert(issues_view(out@) =~= Seq::<IssueView>::empty());
    while k < r.len()
        invariant
            k <= r@.len(),
            sorted == issues_view(r@),
            issues_view(out@) == dedup_issues(sorted.take(k as int)),
        decreases r.len() - k,
    {
        let ghost t = sorted.take(k + 1);
        assert(t.drop_last() =~= sorted.take(k as int));
        let ghost prev = issues_view(out@);
        let repeat = k > 0 && issues_equal(&r[k - 1], &r[k]);
        if !repeat {
            out.push(r[k].copy());
            assert(issues_view(out@) =~= prev.push(sorted[k as int]));
        }
        k = k + 1;
    }
    assert(sorted.take(k as int) =~= sorted);
    *issues = out;
}

/// The input issue for a failed expansion of `input`.
pub open spec fn input_issue(input: Seq<char>, error: Seq<char>) -> IssueView {
    IssueView { path: input, paths: seq![input], kind: IssueKind::Input, message: error }
}

/// The paths the first `n` inputs expand to, in input order.
pub open spec fn expanded_paths_upto(inputs: Seq<Seq<char>>, walks: Seq<Seq<WalkEntry>>, n: int) -> Seq<
    Seq<char>,
>
    decreases n,
{
    if n <= 0 {
        Seq::empty()
    } else {
        expanded_paths_upto(inputs, walks, n - 1) + unfiltered_expansion(inputs[n - 1], walks[n - 1]).0
    }
}

/// The input issues of the first `n` inputs, in input order.
pub open spec fn expansion_issues_upto(inputs: Seq<Seq<char>>, walks: Seq<Seq<WalkEntry>>, n: int) -> Seq<
    IssueView,
>
    decreases n,
{
    if n <= 0 {
        Seq::empty()
    } else {
        expansion_issues_upto(inputs, walks, n - 1) + unfiltered_expansion(
            inputs[n - 1],
            walks[n - 1],
        ).1.map_values(|e: Seq<char>| input_issue(inputs[n - 1], e))
    }
}

/// Expands each check input on its own, given what the walk for each met:
/// all files found, sorted and each once, and an input issue for each
/// expansion error.
pub fn expand_inputs_independently(inputs: &[String], walks: &Vec<Vec<WalkEntry>>) -> (r: (
    Vec<String>,
    Vec<CheckIssue>,
))
    requires
        walks@.len() == inputs@.len(),
    ensures
        strings_view(r.0@) == sorted_unique(
            expanded_paths_upto(strings_view(inputs@), walks@.map_values(|w: Vec<WalkEntry>| w@), inputs@.len() as int),
        ),
        issues_view(r.1@) == expansion_issues_upto(
            strings_view(inputs@),
            walks@.map_values(|w: Vec<WalkEntry>| w@),
            inputs@.len() as int,
        ),
{
    let ghost iv = strings_view(inputs@);
    let ghost wv = walks@.map_values(|w: Vec<WalkEntry>| w@);
    let mut all: Vec<String> = Vec::new();
    let mut issues: Vec<CheckIssue> = Vec::new();
    let mut i: usize = 0;
    while i < inputs.len()
        invariant
            i <= inputs@.len(),
            walks@.len() == inputs@.len(),
            iv == strings_view(inputs@),
            wv == walks@.map_values(|w: Vec<WalkEntry>| w@),
            strings_view(all@) == expanded_paths_upto(iv, wv, i as int),
            issues_view(issues@) == expansion_issues_upto(iv, wv, i as int),
        decreases inputs.len() - i,
    {
        let expansion = expand_input_glob_unfiltered(inputs[i].as_str(), &walks[i]);
        let ghost a0 = strings_view(all@);
        let ghost s0 = issues_view(issues@);
        let ghost ev = unfiltered_expansion(iv[i as int], wv[i as int]);
        assert(iv[i as int] == inputs@[i as int]@);
        assert(wv[i as int] == walks@[i as int]@);
        let mut k: usize = 0;
        while k < expansion.paths.len()
            invariant
                k <= expansion.paths@.len(),
                strings_view(expansion.paths@) == ev.0,
                strings_view(all@) == a0 + ev.0.take(k as int),
            decreases expansion.paths.len() - k,
        {
            let ghost p0 = strings_view(all@);
            all.push(expansion.paths[k].clone());
            assert(strings_view(all@) =~= p0.push(ev.0[k as int]));
            assert(ev.0.take(k + 1) =~= ev.0.take(k as int).push(ev.0[k as int]));
            assert(strings_view(all@) =~= a0 + ev.0.take(k + 1));
            k = k + 1;
        }
        assert(ev.0.take(k as int) =~= ev.0);
        let mut k: usize = 0;
        while k < expansion.errors.len()
            invariant
                k <= expansion.errors@.len(),
                i < inputs@.len(),
                iv == strings_view(inputs@),
                strings_view(expansion.errors@) == ev.1,
                issues_view(issues@) == s0 + ev.1.take(k as int).map_values(
                    |e: Seq<char>| input_issue(iv[i as int], e),
                ),
            decreases expansion.errors.len() - k,
        {
            let issue = CheckIssue::for_path(inputs[i].as_str(), IssueKind::Input, expansion.errors[k].clone());
            let ghost q0 = issues_view(issues@);
            issues.push(issue);
            assert(issues_view(issues@) =~= q0.push(input_issue(iv[i as int], ev.1[k as int])));
            assert(ev.1.take(k + 1) =~= ev.1.take(k as int).push(ev.1[k as int]));
            assert(issues_view(issues@) =~= s0 + ev.1.take(k + 1).map_values(
                |e: Seq<char>| input_issue(iv[i as int], e),
            ));
            k = k + 1;
        }
        assert(ev.1.take(k as int) =~= ev.1);
        i = i + 1;
    }
    (sorted_unique_texts(all), issues)
}

/// One file's entry for a key in one language, with the placeholder
/// signature of its value (none for empty and plural values).
#[derive(Debug)]
pub struct PlaceholderObservation {
    pub path: String,
    pub signature: Option<Vec<String>>,
}

pub struct ObservationView {
    pub path: Seq<char>,
    pub signature: Option<Seq<Seq<char>>>,
}

impl View for PlaceholderObservation {
    type V = ObservationView;

    open spec fn view(&self) -> ObservationView {
        ObservationView {
            path: self.path@,
            signature: match self.signature {
                Some(v) => Some(strings_view(v@)),
                None => None,
            },
        }
    }
}

pub open spec fn observations_view(s: Seq<PlaceholderObservation>) -> Seq<ObservationView> {
    s.map_values(|o: PlaceholderObservation| o@)
}

/// The observations of a key, by language.
pub open spec fn languages_view(s: Seq<(String, Vec<PlaceholderObservation>)>) -> Seq<
    (Seq<char>, Seq<ObservationView>),
> {
    s.map_values(|l: (String, Vec<PlaceholderObservation>)| (l.0@, observations_view(l.1@)))
}

pub open spec fn observation_paths(obs: Seq<ObservationView>) -> Seq<Seq<char>> {
    obs.map_values(|o: ObservationView| o.path)
}

pub open spec fn duplicate_message(
    domain: Seq<char>,
    key: Seq<char>,
    language: Seq<char>,
    obs: Seq<ObservationView>,
) -> Seq<char> {
    "domain '"@ + domain + "' key '"@ + key + "' has "@ + decimal(obs.len()) + " duplicate entries for language '"@
        + language + "' in ["@ + join(sorted_unique(observation_paths(obs)), ", "@) + "]"@
}

/// An issue for each language that has more than one entry for the key.
pub open spec fn duplicate_issues(
    domain: Seq<char>,
    key: Seq<char>,
    langs: Seq<(Seq<char>, Seq<ObservationView>)>,
) -> Seq<IssueView>
    decreases langs.len(),
{
    if langs.len() == 0 {
        Seq::empty()
    } else {
        let prev = duplicate_issues(domain, key, langs.drop_last());
        let l = langs.last();
        if l.1.len() > 1 {
            prev.push(
                new_issue(
                    observation_paths(l.1),
                    IssueKind::Placeholder,
                    duplicate_message(domain, key, l.0, l.1),
                ),
            )
        } else {
            prev
        }
    }
}

/// The languages whose single entry has a signature: language, path and
/// signature, in language order.
pub open spec fn comparable_of(langs: Seq<(Seq<char>, Seq<ObservationView>)>) -> Seq<
    (Seq<char>, Seq<char>, Seq<Seq<char>>),
>
    decreases langs.len(),
{
    if langs.len() == 0 {
        Seq::empty()
    } else {
        let prev = comparable_of(langs.drop_last());
        let l = langs.last();
        if l.1.len() == 1 && l.1[0].signature is Some {
            prev.push((l.0, l.1[0].path, l.1[0].signature.unwrap()))
        } else {
            prev
        }
    }
}

pub open spec fn mismatch_message(
    domain: Seq<char>,
    key: Seq<char>,
    a: (Seq<char>, Seq<char>, Seq<Seq<char>>),
    b: (Seq<char>, Seq<char>, Seq<Seq<char>>),
) -> Seq<char> {
    "domain '"@ + domain + "' key '"@ + key + "' placeholder mismatch: language '"@ + a.0 + "' at '"@ + a.1
        + "' has "@ + rendered_signature(a.2) + " vs language '"@ + b.0 + "' at '"@ + b.1 + "' has "@
        + rendered_signature(b.2)
}

/// The mismatch issues of comparable language `i` with the languages after
/// it and before `j_end`.
pub open spec fn row_issues(
    domain: Seq<char>,
    key: Seq<char>,
    comp: Seq<(Seq<char>, Seq<char>, Seq<Seq<char>>)>,
    i: int,
    j_end: int,
) -> Seq<IssueView>
    decreases j_end - i,
{
    if j_end <= i + 1 {
        Seq::empty()
    } else {
        let prev = row_issues(domain, key, comp, i, j_end - 1);
        let j = j_end - 1;
        if comp[i].2 == comp[j].2 {
            prev
        } else {
            prev.push(
                new_issue(
                    seq![comp[i].1, comp[j].1],
                    IssueKind::Placeholder,
                    mismatch_message(domain, key, comp[i], comp[j]),
                ),
            )
        }
    }
}

/// The mismatch issues of every pair of comparable languages whose first
/// member is before `i_end`, pair by pair in order.
pub open spec fn pair_issues(
    domain: Seq<char>,
    key: Seq<char>,
    comp: Seq<(Seq<char>, Seq<char>, Seq<Seq<char>>)>,
    i_end: int,
) -> Seq<IssueView>
    decreases i_end,
{
    if i_end <= 0 {
        Seq::empty()
    } else {
        pair_issues(domain, key, comp, i_end - 1) + row_issues(domain, key, comp, i_end - 1, comp.len() as int)
    }
}

/// The placeholder issues of one key: a duplicate issue for each language
/// with several entries, then a mismatch issue for every pair of languages
/// whose signatures differ.
pub open spec fn group_issues(
    domain: Seq<char>,
    key: Seq<char>,
    langs: Seq<(Seq<char>, Seq<ObservationView>)>,
) -> Seq<IssueView> {
    let comp = comparable_of(langs);
    duplicate_issues(domain, key, langs) + pair_issues(domain, key, comp, comp.len() as int)
}

fn copy_list(v: &Vec<String>) -> (r: Vec<String>)
    ensures
        strings_view(r@) == strings_view(v@),
{
    let mut r: Vec<String> = Vec::new();
    let mut i: usize = 0;
    while i < v.len()
        invariant
            i <= v@.len(),
            r@.len() == i,
            forall|j: int| 0 <= j < i ==> #[trigger] r@[j]@ == v@[j]@,
        decreases v.len() - i,
    {
        r.push(v[i].clone());
        i = i + 1;
    }
    assert(strings_view(r@) =~= strings_view(v@));
    r
}

pub open spec fn comparable_view(s: Seq<(String, String, Vec<String>)>) -> Seq<
    (Seq<char>, Seq<char>, Seq<Seq<char>>),
> {
    s.map_values(|c: (String, String, Vec<String>)| (c.0@, c.1@, strings_view(c.2@)))
}

/// The observations of a group are listed by language, each language once,
/// in order (as a map keyed by language holds them).
pub open spec fn languages_ordered(ls: Seq<(Seq<char>, Seq<ObservationView>)>) -> bool {
    forall|i: int, j: int| 0 <= i < j < ls.len() ==> lex_lt(#[trigger] ls[i].0, #[trigger] ls[j].0)
}

/// The languages of a group are listed in order, each once.
pub proof fn lemma_languages_for_ordered(recs: Seq<RecordView>, domain: Seq<char>, key: Seq<char>)
    ensures
        languages_ordered(languages_for(recs, domain, key)),
{
    let rs = records_for(recs, domain, key);
    let names = record_languages(rs);
    let leq = crate::order::text_leq();
    crate::order::lemma_text_order();
    let t = names.sort_by(leq);
    names.lemma_sort_by_ensures(leq);
    lemma_dedup_adjacent_is_dedup(t);
    lemma_dedup_sorted(t, leq);
    let u = sorted_unique(names);
    assert(u == dedup_seq(t));
    let ls = languages_for(recs, domain, key);
    assert forall|i: int, j: int| 0 <= i < j < ls.len() implies lex_lt(#[trigger] ls[i].0, #[trigger] ls[j].0) by {
        assert(ls[i].0 == u[i] && ls[j].0 == u[j]);
        assert(leq(u[i], u[j]) && u[i] != u[j]);
    }
}

pub fn collect_group_placeholder_issues(
    domain: &str,
    key: &str,
    languages: &Vec<(String, Vec<PlaceholderObservation>)>,
) -> (r: Vec<CheckIssue>)
    requires
        languages_ordered(languages_view(languages@)),
    ensures
        issues_view(r@) == group_issues(domain@, key@, languages_view(languages@)),
{
    let ghost lv = languages_view(languages@);
    let mut issues: Vec<CheckIssue> = Vec::new();
    let mut comparable: Vec<(String, String, Vec<String>)> = Vec::new();
    let mut i: usize = 0;
    assert(lv.take(0) =~= Seq::<(Seq<char>, Seq<ObservationView>)>::empty());
    assert(issues_view(issues@) =~= Seq::<IssueView>::empty());
    assert(comparable_view(comparable@) =~= Seq::<(Seq<char>, Seq<char>, Seq<Seq<char>>)>::empty());
    while i < languages.len()
        invariant
            i <= languages@.len(),
            lv == languages_view(languages@),
            issues_view(issues@) == duplicate_issues(domain@, key@, lv.take(i as int)),
            comparable_view(comparable@) == comparable_of(lv.take(i as int)),
        decreases languages.len() - i,
    {
        let ghost t = lv.take(i + 1);
        assert(t.drop_last() =~= lv.take(i as int));
        assert(t.last() == lv[i as int]);
        let language = &languages[i].0;
        let observations = &languages[i].1;
        let ghost ov = observations_view(observations@);
        assert(lv[i as int] == (language@, ov));
        if observations.len() > 1 {
            let mut paths: Vec<String> = Vec::new();
            let mut k: usize = 0;
            while k < observations.len()
                invariant
                    k <= observations@.len(),
                    ov == observations_view(observations@),
                    paths@.len() == k,
                    forall|j: int| 0 <= j < k ==> #[trigger] paths@[j]@ == ov[j].path,
                decreases observations.len() - k,
            {
                paths.push(observations[k].path.clone());
                k = k + 1;
            }
            assert(strings_view(paths@) =~= observation_paths(ov));
            let unique = sorted_unique_paths(paths.as_slice());
            let listed = join_strings(&unique, ", ");
            let mut m = String::from_str("domain '");
            m.append(domain);
            m.append("' key '");
            m.append(key);
            m.append("' has ");
            let n = usize_to_string(observations.len());
            m.append(n.as_str());
            m.append(" duplicate entries for language '");
            m.append(language.as_str());
            m.append("' in [");
            m.append(listed.as_str());
            m.append("]");
            let ghost prev = issues_view(issues@);
            let issue = CheckIssue::new(paths, IssueKind::Placeholder, m);
            issues.push(issue);
            assert(issues_view(issues@) =~= prev.push(issue@));
        } else if observations.len() == 1 {
            match &observations[0].signature {
                Some(sig) => {
                    let ghost prev = comparable_view(comparable@);
                    comparable.push((language.clone(), observations[0].path.clone(), copy_list(sig)));
                    assert(comparable_view(comparable@) =~= prev.push(
                        (language@, ov[0].path, ov[0].signature.unwrap()),
                    ));
                },
                None => {},
            }
        }
        i = i + 1;
    }
    assert(lv.take(i as int) =~= lv);
    let ghost base = issues_view(issues@);
    let ghost cv = comparable_view(comparable@);
    let n = comparable.len();
    let mut a: usize = 0;
    assert(base + pair_issues(domain@, key@, cv, 0) =~= base);
    while a < n
        invariant
            a <= n,
            n == comparable@.len(),
            cv == comparable_view(comparable@),
            issues_view(issues@) == base + pair_issues(domain@, key@, cv, a as int),
        decreases n - a,
    {
        let mut b: usize = a + 1;
        assert(issues_view(issues@) =~= base + pair_issues(domain@, key@, cv, a as int) + row_issues(
            domain@,
            key@,
            cv,
            a as int,
            b as int,
        ));
        while b < n
            invariant
                a < b <= n,
                n == comparable@.len(),
                cv == comparable_view(comparable@),
                issues_view(issues@) == base + pair_issues(domain@, key@, cv, a as int) + row_issues(
                    domain@,
                    key@,
                    cv,
                    a as int,
                    b as int,
                ),
            decreases n - b,
        {
            let left = &comparable[a];
            let right = &comparable[b];
            if !lists_equal(&left.2, &right.2) {
                let mut m = String::from_str("domain '");
                m.append(domain);
                m.append("' key '");
                m.append(key);
                m.append("' placeholder mismatch: language '");
                m.append(left.0.as_str());
                m.append("' at '");
                m.append(left.1.as_str());
                m.append("' has ");
                let ls = render_signature(left.2.as_slice());
                m.append(ls.as_str());
                m.append(" vs language '");
                m.append(right.0.as_str());
                m.append("' at '");
                m.append(right.1.as_str());
                m.append("' has ");
                let rs = render_signature(right.2.as_slice());
                m.append(rs.as_str());
                let mut ps: Vec<String> = Vec::new();
                ps.push(left.1.clone());
                ps.push(right.1.clone());
                assert(strings_view(ps@) =~= seq![cv[a as int].1, cv[b as int].1]);
                let ghost prev = issues_view(issues@);
                let issue = CheckIssue::new(ps, IssueKind::Placeholder, m);
                issues.push(issue);
                assert(issues_view(issues@) =~= prev.push(issue@));
            }
            b = b + 1;
        }
        a = a + 1;
    }
    issues
}

impl PlaceholderObservation {
    pub fn copy(&self) -> (r: PlaceholderObservation)
        ensures
            r@ == self@,
    {
        PlaceholderObservation {
            path: self.path.clone(),
            signature: match &self.signature {
                Some(v) => Some(copy_list(v)),
                None => None,
            },
        }
    }
}

/// The order of group keys (`(String, String)`'s `Ord`): by domain, then key.
pub open spec fn key_le(a: (Seq<char>, Seq<char>), b: (Seq<char>, Seq<char>)) -> bool {
    lex_lt(a.0, b.0) || (a.0 == b.0 && lex_le(a.1, b.1))
}

pub open spec fn key_order() -> spec_fn((Seq<char>, Seq<char>), (Seq<char>, Seq<char>)) -> bool {
    |a: (Seq<char>, Seq<char>), b: (Seq<char>, Seq<char>)| key_le(a, b)
}

/// The order of group keys is a total order.
pub proof fn lemma_key_order()
    ensures
        total_ordering(key_order()),
{
    let r = key_order();
    assert forall|x: (Seq<char>, Seq<char>)| #[trigger] r(x, x) by {}
    assert forall|x: (Seq<char>, Seq<char>), y: (Seq<char>, Seq<char>)|
        #[trigger] r(x, y) && r(y, x) implies x == y by {
        if lex_lt(x.0, y.0) {
            lemma_lex_asym(x.0, y.0);
            lemma_lex_irrefl(x.0);
        } else if lex_lt(y.0, x.0) {
            lemma_lex_irrefl(y.0);
        } else if x.1 != y.1 {
            lemma_lex_asym(x.1, y.1);
        }
    }
    assert forall|x: (Seq<char>, Seq<char>), y: (Seq<char>, Seq<char>), z: (Seq<char>, Seq<char>)|
        #[trigger] r(x, y) && #[trigger] r(y, z) implies r(x, z) by {
        if lex_lt(x.0, y.0) && lex_lt(y.0, z.0) {
            lemma_lex_trans(x.0, y.0, z.0);
        } else if x.0 == y.0 && y.0 == z.0 {
            if x.1 != y.1 && y.1 != z.1 {
                lemma_lex_trans(x.1, y.1, z.1);
            }
        }
    }
    assert forall|x: (Seq<char>, Seq<char>), y: (Seq<char>, Seq<char>)| #[trigger] r(x, y) || r(y, x) by {
        lemma_lex_total(x.0, y.0);
        lemma_lex_total(x.1, y.1);
    }
}

/// `s` without the elements equal to the one before them.
pub open spec fn dedup_seq<A>(s: Seq<A>) -> Seq<A>
    decreases s.len(),
{
    if s.len() == 0 {
        s
    } else if s.len() >= 2 && s[s.len() - 2] == s.last() {
        dedup_seq(s.drop_last())
    } else {
        dedup_seq(s.drop_last()).push(s.last())
    }
}

pub open spec fn keys_view(s: Seq<(String, String)>) -> Seq<(Seq<char>, Seq<char>)> {
    s.map_values(|k: (String, String)| (k.0@, k.1@))
}

fn key_before_or_same(a: &(String, String), b: &(String, String)) -> (r: bool)
    ensures
        r == key_le((a.0@, a.1@), (b.0@, b.1@)),
{
    let a0 = chars_of(a.0.as_str());
    let b0 = chars_of(b.0.as_str());
    if lex_less(a0.as_slice(), b0.as_slice()) {
        return true;
    }
    if !str_eq(a.0.as_str(), b.0.as_str()) {
        return false;
    }
    let a1 = chars_of(a.1.as_str());
    let b1 = chars_of(b.1.as_str());
    str_eq(a.1.as_str(), b.1.as_str()) || lex_less(a1.as_slice(), b1.as_slice())
}

/// The group keys sorted, each once (what a `BTreeSet` of them holds).
pub fn sorted_unique_keys(v: &Vec<(String, String)>) -> (r: Vec<(String, String)>)
    ensures
        keys_view(r@) == dedup_seq(keys_view(v@).sort_by(key_order())),
{
    let ghost sv = keys_view(v@);
    let mut r: Vec<(String, String)> = Vec::new();
    let mut i: usize = 0;
    proof {
        lemma_key_order();
    }
    while i < v.len()
        invariant
            i <= v@.len(),
            sv == keys_view(v@),
            total_ordering(key_order()),
            sorted_by(keys_view(r@), key_order()),
            keys_view(r@).to_multiset() == sv.take(i as int).to_multiset(),
        decreases v.len() - i,
    {
        let x = (v[i].0.clone(), v[i].1.clone());
        let mut p: usize = 0;
        while p < r.len() && key_before_or_same(&r[p], &x)
            invariant
                p <= r@.len(),
                forall|k: int| 0 <= k < p ==> key_le(#[trigger] keys_view(r@)[k], (x.0@, x.1@)),
            decreases r.len() - p,
        {
            p = p + 1;
        }
        let ghost before = keys_view(r@);
        let ghost xv = (x.0@, x.1@);
        proof {
            if p < r@.len() {
                assert(key_order()(xv, before[p as int]) || key_order()(before[p as int], xv));
            }
            crate::order::lemma_insert_sorted(before, p as int, xv, key_order());
            assert(sv.take(i + 1) =~= sv.take(i as int).push(xv));
        }
        r.insert(p, x);
        assert(keys_view(r@) =~= before.insert(p as int, xv));
        i = i + 1;
    }
    let ghost sorted = keys_view(r@);
    proof {
        assert(sv.take(v@.len() as int) =~= sv);
        sv.lemma_sort_by_ensures(key_order());
        vstd::seq_lib::lemma_sorted_unique(sorted, sv.sort_by(key_order()), key_order());
    }
    let mut out: Vec<(String, String)> = Vec::new();
    let mut k: usize = 0;
    assert(sorted.take(0) =~= Seq::<(Seq<char>, Seq<char>)>::empty());
    assert(keys_view(out@) =~= Seq::<(Seq<char>, Seq<char>)>::empty());
    while k < r.len()
        invariant
            k <= r@.len(),
            sorted == keys_view(r@),
            keys_view(out@) == dedup_seq(sorted.take(k as int)),
        decreases r.len() - k,
    {
        let ghost t = sorted.take(k + 1);
        assert(t.drop_last() =~= sorted.take(k as int));
        let ghost prev = keys_view(out@);
        let repeat = k > 0 && str_eq(r[k - 1].0.as_str(), r[k].0.as_str()) && str_eq(
            r[k - 1].1.as_str(),
            r[k].1.as_str(),
        );
        if !repeat {
            out.push((r[k].0.clone(), r[k].1.clone()));
            assert(keys_view(out@) =~= prev.push(sorted[k as int]));
        }
        k = k + 1;
    }
    assert(sorted.take(k as int) =~= sorted);
    out
}

/// One observation of a placeholder check, with the group (domain and key)
/// and the language it belongs to.
#[derive(Debug)]
pub struct PlaceholderRecord {
    pub domain: String,
    pub key: String,
    pub language: String,
    pub observation: PlaceholderObservation,
}

pub struct RecordView {
    pub domain: Seq<char>,
    pub key: Seq<char>,
    pub language: Seq<char>,
    pub observation: ObservationView,
}

impl View for PlaceholderRecord {
    type V = RecordView;

    open spec fn view(&self) -> RecordView {
        RecordView {
            domain: self.domain@,
            key: self.key@,
            language: self.language@,
            observation: self.observation@,
        }
    }
}

pub open spec fn records_view(s: Seq<PlaceholderRecord>) -> Seq<RecordView> {
    s.map_values(|r: PlaceholderRecord| r@)
}

/// The records of one group, in arrival order.
pub open spec fn records_for(recs: Seq<RecordView>, domain: Seq<char>, key: Seq<char>) -> Seq<RecordView>
    decreases recs.len(),
{
    if recs.len() == 0 {
        Seq::empty()
    } else {
        let prev = records_for(recs.drop_last(), domain, key);
        if recs.last().domain == domain && recs.last().key == key {
            prev.push(recs.last())
        } else {
            prev
        }
    }
}

/// The observations of one language among some records, in arrival order.
pub open spec fn observations_in(rs: Seq<RecordView>, language: Seq<char>) -> Seq<ObservationView>
    decreases rs.len(),
{
    if rs.len() == 0 {
        Seq::empty()
    } else {
        let prev = observations_in(rs.drop_last(), language);
        if rs.last().language == language {
            prev.push(rs.last().observation)
        } else {
            prev
        }
    }
}

pub open spec fn record_languages(rs: Seq<RecordView>) -> Seq<Seq<char>> {
    rs.map_values(|r: RecordView| r.language)
}

/// The observations of a group by language, languages in order.
pub open spec fn languages_for(recs: Seq<RecordView>, domain: Seq<char>, key: Seq<char>) -> Seq<
    (Seq<char>, Seq<ObservationView>),
> {
    let rs = records_for(recs, domain, key);
    sorted_unique(record_languages(rs)).map_values(|l: Seq<char>| (l, observations_in(rs, l)))
}

pub open spec fn record_keys(recs: Seq<RecordView>) -> Seq<(Seq<char>, Seq<char>)> {
    recs.map_values(|r: RecordView| (r.domain, r.key))
}

/// The placeholder issues of the given groups, group after group.
pub open spec fn issues_for_keys(recs: Seq<RecordView>, keys: Seq<(Seq<char>, Seq<char>)>) -> Seq<
    IssueView,
>
    decreases keys.len(),
{
    if keys.len() == 0 {
        Seq::empty()
    } else {
        let k = keys.last();
        issues_for_keys(recs, keys.drop_last()) + group_issues(k.0, k.1, languages_for(recs, k.0, k.1))
    }
}

/// The placeholder issues of everything observed: each group's issues, groups
/// in key order.
pub open spec fn validator_issues(recs: Seq<RecordView>) -> Seq<IssueView> {
    issues_for_keys(recs, dedup_seq(record_keys(recs).sort_by(key_order())))
}

/// The placeholder signature an entry contributes: that of its text for a
/// singular value; none for empty and plural values.
pub open spec fn entry_signature(v: TranslationView, sig: Seq<Seq<char>>) -> Option<Seq<Seq<char>>> {
    match v {
        TranslationView::Singular(_) => Some(sig),
        _ => None,
    }
}

/// The records of the first `m` entries of a resource of language `lang`.
pub open spec fn resource_records(
    path: Seq<char>,
    r: ResourceView,
    lang: Seq<char>,
    sigs: Seq<Seq<Seq<char>>>,
    m: int,
) -> Seq<RecordView>
    decreases m,
{
    if m <= 0 {
        Seq::empty()
    } else {
        let e = r.entries[m - 1];
        resource_records(path, r, lang, sigs, m - 1).push(
            RecordView {
                domain: r.metadata.domain,
                key: e.id,
                language: lang,
                observation: ObservationView { path: path, signature: entry_signature(e.value, sigs[m - 1]) },
            },
        )
    }
}

/// The records a file contributes from its first `n` resources: those of
/// each entry of a resource whose language parses, under the canonical tag.
pub open spec fn file_records(
    path: Seq<char>,
    rs: Seq<ResourceView>,
    sigs: Seq<Seq<Seq<Seq<char>>>>,
    n: int,
) -> Seq<RecordView>
    decreases n,
{
    if n <= 0 {
        Seq::empty()
    } else {
        file_records(path, rs, sigs, n - 1) + match langid_canonical(rs[n - 1].metadata.language) {
            Some(l) => resource_records(path, rs[n - 1], l, sigs[n - 1], rs[n - 1].entries.len() as int),
            None => Seq::empty(),
        }
    }
}

pub open spec fn signatures_view(s: Seq<Vec<Vec<String>>>) -> Seq<Seq<Seq<Seq<char>>>> {
    s.map_values(|r: Vec<Vec<String>>| r@.map_values(|e: Vec<String>| strings_view(e@)))
}

/// Collects the placeholder observations of the checked files and compares
/// them per key across languages.
pub struct PlaceholderValidator {
    records: Vec<PlaceholderRecord>,
}

impl View for PlaceholderValidator {
    type V = Seq<RecordView>;

    closed spec fn view(&self) -> Seq<RecordView> {
        records_view(self.records@)
    }
}

fn copy_record(r: &PlaceholderRecord) -> (c: PlaceholderRecord)
    ensures
        c@ == r@,
{
    PlaceholderRecord {
        domain: r.domain.clone(),
        key: r.key.clone(),
        language: r.language.clone(),
        observation: r.observation.copy(),
    }
}

/// The observations of a group by language, languages in order.
pub fn group_languages(records: &Vec<PlaceholderRecord>, domain: &str, key: &str) -> (r: Vec<
    (String, Vec<PlaceholderObservation>),
>)
    ensures
        languages_view(r@) == languages_for(records_view(records@), domain@, key@),
{
    let ghost rv = records_view(records@);
    let mut rs: Vec<PlaceholderRecord> = Vec::new();
    let mut i: usize = 0;
    assert(rv.take(0) =~= Seq::<RecordView>::empty());
    assert(records_view(rs@) =~= Seq::<RecordView>::empty());
    while i < records.len()
        invariant
            i <= records@.len(),
            rv == records_view(records@),
            records_view(rs@) == records_for(rv.take(i as int), domain@, key@),
        decreases records.len() - i,
    {
        assert(rv.take(i + 1).drop_last() =~= rv.take(i as int));
        let ghost prev = records_view(rs@);
        if str_eq(records[i].domain.as_str(), domain) && str_eq(records[i].key.as_str(), key) {
            rs.push(copy_record(&records[i]));
            assert(records_view(rs@) =~= prev.push(rv[i as int]));
        }
        i = i + 1;
    }
    assert(rv.take(i as int) =~= rv);
    let ghost gv = records_view(rs@);
    let mut langs: Vec<String> = Vec::new();
    let mut j: usize = 0;
    while j < rs.len()
        invariant
            j <= rs@.len(),
            gv == records_view(rs@),
            langs@.len() == j,
            forall|q: int| 0 <= q < j ==> #[trigger] langs@[q]@ == gv[q].language,
        decreases rs.len() - j,
    {
        langs.push(rs[j].language.clone());
        j = j + 1;
    }
    assert(strings_view(langs@) =~= record_languages(gv));
    let unique = sorted_unique_texts(langs);
    let ghost uv = strings_view(unique@);
    let mut out: Vec<(String, Vec<PlaceholderObservation>)> = Vec::new();
    let mut a: usize = 0;
    while a < unique.len()
        invariant
            a <= unique@.len(),
            uv == strings_view(unique@),
            gv == records_view(rs@),
            out@.len() == a,
            forall|q: int| 0 <= q < a ==> #[trigger] languages_view(out@)[q] == (uv[q], observations_in(gv, uv[q])),
        decreases unique.len() - a,
    {
        let l = &unique[a];
        let mut obs: Vec<PlaceholderObservation> = Vec::new();
        let mut b: usize = 0;
        assert(gv.take(0) =~= Seq::<RecordView>::empty());
        assert(observations_view(obs@) =~= Seq::<ObservationView>::empty());
        while b < rs.len()
            invariant
                b <= rs@.len(),
                gv == records_view(rs@),
                observations_view(obs@) == observations_in(gv.take(b as int), l@),
            decreases rs.len() - b,
        {
            assert(gv.take(b + 1).drop_last() =~= gv.take(b as int));
            let ghost prev = observations_view(obs@);
            if str_eq(rs[b].language.as_str(), l.as_str()) {
                obs.push(rs[b].observation.copy());
                assert(observations_view(obs@) =~= prev.push(gv[b as int].observation));
            }
            b = b + 1;
        }
        assert(gv.take(b as int) =~= gv);
        let ghost before = languages_view(out@);
        out.push((l.clone(), obs));
        assert(languages_view(out@) =~= before.push((uv[a as int], observations_in(gv, uv[a as int]))));
        a = a + 1;
    }
    assert(languages_view(out@) =~= uv.map_values(|l: Seq<char>| (l, observations_in(gv, l))));
    out
}

impl PlaceholderValidator {
    /// A validator that has seen nothing.
    pub fn new() -> (r: PlaceholderValidator)
        ensures
            r@ == Seq::<RecordView>::empty(),
    {
        let v = PlaceholderValidator { records: Vec::new() };
        assert(v@ =~= Seq::<RecordView>::empty());
        v
    }

    /// Adds the entries of a file read from `path`; `signatures[r][e]` is the
    /// placeholder signature of the text of entry `e` of resource `r` (read
    /// only for singular values). Returns whether any group the file touched
    /// now has issues.
    pub fn add_file(&mut self, path: &str, codec: &Codec, signatures: &Vec<Vec<Vec<String>>>) -> (failed:
        bool)
        requires
            signatures@.len() == codec@.len(),
            forall|i: int| 0 <= i < codec@.len() ==> #[trigger] signatures@[i]@.len() == codec@[i].entries.len(),
        ensures
            final(self)@ == old(self)@ + file_records(
                path@,
                codec@,
                signatures_view(signatures@),
                codec@.len() as int,
            ),
            failed == exists|i: int|
                old(self)@.len() <= i < final(self)@.len() && #[trigger] group_issues(
                    final(self)@[i].domain,
                    final(self)@[i].key,
                    languages_for(final(self)@, final(self)@[i].domain, final(self)@[i].key),
                ).len() > 0,
            forall|k: int|
                old(self)@.len() <= k < final(self)@.len() ==> record_from_resources(
                    #[trigger] final(self)@[k],
                    codec@,
                    codec@.len() as int,
                    path@,
                ),
    {
        let ghost sv = signatures_view(signatures@);
        let ghost cv = codec@;
        let ghost start = records_view(self.records@);
        let start_len = self.records.len();
        let mut r: usize = 0;
        while r < codec.resources.len()
            invariant
                r <= codec@.len(),
                cv == codec@,
                sv == signatures_view(signatures@),
                signatures@.len() == codec@.len(),
                forall|i: int| 0 <= i < codec@.len() ==> #[trigger] signatures@[i]@.len() == codec@[i].entries.len(),
                start_len == start.len(),
                records_view(self.records@) == start + file_records(path@, cv, sv, r as int),
            decreases codec.resources.len() - r,
        {
            let res = &codec.resources[r];
            assert(cv[r as int] == res@);
            let ghost before = records_view(self.records@);
            match crate::langid::canonical_language_id(res.metadata.language.as_str()) {
                Some(lang) => {
                    let mut e: usize = 0;
                    let ghost rsig = sv[r as int];
                    assert(rsig.len() == res.entries@.len());
                    while e < res.entries.len()
                        invariant
                            e <= res.entries@.len(),
                            res@ == cv[r as int],
                            rsig == sv[r as int],
                            rsig.len() == res.entries@.len(),
                            signatures@[r as int]@.len() == res.entries@.len(),
                            sv == signatures_view(signatures@),
                            r < codec@.len(),
                            signatures@.len() == codec@.len(),
                            records_view(self.records@) == before + resource_records(
                                path@,
                                res@,
                                lang@,
                                rsig,
                                e as int,
                            ),
                        decreases res.entries.len() - e,
                    {
                        let entry = &res.entries[e];
                        let sig = match &entry.value {
                            Translation::Singular(_) => Some(copy_list(&signatures[r][e])),
                            _ => None,
                        };
                        assert(rsig[e as int] == strings_view(signatures@[r as int]@[e as int]@));
                        let rec = PlaceholderRecord {
                            domain: res.metadata.domain.clone(),
                            key: entry.id.clone(),
                            language: lang.clone(),
                            observation: PlaceholderObservation { path: String::from_str(path), signature: sig },
                        };
                        let ghost prev = records_view(self.records@);
                        self.records.push(rec);
                        assert(records_view(self.records@) =~= prev.push(rec@));
                        e = e + 1;
                    }
                    assert(file_records(path@, cv, sv, r + 1) == file_records(path@, cv, sv, r as int)
                        + resource_records(path@, cv[r as int], lang@, sv[r as int], cv[r as int].entries.len() as int));
                    assert(records_view(self.records@) =~= start + file_records(path@, cv, sv, r + 1));
                },
                None => {
                    assert(file_records(path@, cv, sv, r + 1) =~= file_records(path@, cv, sv, r as int));
                },
            }
            r = r + 1;
        }
        let ghost fin = records_view(self.records@);
        let mut failed = false;
        let mut i: usize = start_len;
        while i < self.records.len()
            invariant
                start_len <= i <= self.records@.len(),
                fin == records_view(self.records@),
                failed == exists|j: int|
                    start_len <= j < i && #[trigger] group_issues(
                        fin[j].domain,
                        fin[j].key,
                        languages_for(fin, fin[j].domain, fin[j].key),
                    ).len() > 0,
            decreases self.records.len() - i,
        {
            let langs = group_languages(&self.records, self.records[i].domain.as_str(), self.records[i].key.as_str());
            proof {
                lemma_languages_for_ordered(records_view(self.records@), self.records@[i as int].domain@, self.records@[i as int].key@);
            }
            let found = collect_group_placeholder_issues(
                self.records[i].domain.as_str(),
                self.records[i].key.as_str(),
                &langs,
            );
            assert(self.records@[i as int]@ == fin[i as int]);
            assert(group_issues(
                fin[i as int].domain,
                fin[i as int].key,
                languages_for(fin, fin[i as int].domain, fin[i as int].key),
            ).len() == found@.len());
            if found.len() > 0 {
                failed = true;
            }
            i = i + 1;
        }
        assert(fin == self@);
        proof {
            lemma_file_records_signatures(path@, cv, sv, cv.len() as int);
            assert forall|k: int| start_len <= k < fin.len() implies record_from_resources(
                #[trigger] fin[k],
                cv,
                cv.len() as int,
                path@,
            ) by {
                assert(fin[k] == file_records(path@, cv, sv, cv.len() as int)[k - start_len]);
            }
        }
        failed
    }

    /// Every placeholder issue found, group by group in key order.
    pub fn into_issues(self) -> (r: Vec<CheckIssue>)
        ensures
            issues_view(r@) == validator_issues(self@),
    {
        let ghost rv = records_view(self.records@);
        let mut keys: Vec<(String, String)> = Vec::new();
        let mut i: usize = 0;
        while i < self.records.len()
            invariant
                i <= self.records@.len(),
                rv == records_view(self.records@),
                keys@.len() == i,
                forall|q: int| 0 <= q < i ==> #[trigger] keys_view(keys@)[q] == (rv[q].domain, rv[q].key),
            decreases self.records.len() - i,
        {
            let ghost prev = keys_view(keys@);
            keys.push((self.records[i].domain.clone(), self.records[i].key.clone()));
            assert(self.records@[i as int]@ == rv[i as int]);
            assert(keys_view(keys@) =~= prev.push((rv[i as int].domain, rv[i as int].key)));
            i = i + 1;
        }
        assert(keys_view(keys@) =~= record_keys(rv));
        let unique = sorted_unique_keys(&keys);
        let ghost kv = keys_view(unique@);
        let mut out: Vec<CheckIssue> = Vec::new();
        let mut k: usize = 0;
        assert(kv.take(0) =~= Seq::<(Seq<char>, Seq<char>)>::empty());
        assert(issues_view(out@) =~= Seq::<IssueView>::empty());
        while k < unique.len()
            invariant
                k <= unique@.len(),
                kv == keys_view(unique@),
                rv == records_view(self.records@),
                issues_view(out@) == issues_for_keys(rv, kv.take(k as int)),
            decreases unique.len() - k,
        {
            assert(kv.take(k + 1).drop_last() =~= kv.take(k as int));
            let langs = group_languages(&self.records, unique[k].0.as_str(), unique[k].1.as_str());
            proof {
                lemma_languages_for_ordered(records_view(self.records@), unique@[k as int].0@, unique@[k as int].1@);
            }
            let found = collect_group_placeholder_issues(unique[k].0.as_str(), unique[k].1.as_str(), &langs);
            let ghost before = issues_view(out@);
            let ghost fv = issues_view(found@);
            let mut q: usize = 0;
            while q < found.len()
                invariant
                    q <= found@.len(),
                    fv == issues_view(found@),
                    issues_view(out@) == before + fv.take(q as int),
                decreases found.len() - q,
            {
                let ghost p0 = issues_view(out@);
                out.push(found[q].copy());
                assert(issues_view(out@) =~= p0.push(fv[q as int]));
                assert(fv.take(q + 1) =~= fv.take(q as int).push(fv[q as int]));
                q = q + 1;
            }
            assert(fv.take(q as int) =~= fv);
            k = k + 1;
        }
        assert(kv.take(k as int) =~= kv);
        out
    }
}

/// A key of a resource that lacks plural forms its language needs: the
/// categories missing and those present, each in category order.
#[derive(Debug)]
pub struct PluralIssue {
    pub language: String,
    pub key: String,
    pub missing: Vec<PluralCategory>,
    pub have: Vec<PluralCategory>,
}

pub struct PluralIssueView {
    pub language: Seq<char>,
    pub key: Seq<char>,
    pub missing: Seq<PluralCategory>,
    pub have: Seq<PluralCategory>,
}

impl View for PluralIssue {
    type V = PluralIssueView;

    open spec fn view(&self) -> PluralIssueView {
        PluralIssueView { language: self.language@, key: self.key@, missing: self.missing@, have: self.have@ }
    }
}

pub open spec fn plural_issues_view(s: Seq<PluralIssue>) -> Seq<PluralIssueView> {
    s.map_values(|p: PluralIssue| p@)
}

pub open spec fn category_rank(c: PluralCategory) -> int {
    match c {
        PluralCategory::Zero => 0,
        PluralCategory::One => 1,
        PluralCategory::Two => 2,
        PluralCategory::Few => 3,
        PluralCategory::Many => 4,
        PluralCategory::Other => 5,
    }
}

/// The name a report gives a plural category.
pub open spec fn category_name(c: PluralCategory) -> Seq<char> {
    match c {
        PluralCategory::Zero => "zero"@,
        PluralCategory::One => "one"@,
        PluralCategory::Two => "two"@,
        PluralCategory::Few => "few"@,
        PluralCategory::Many => "many"@,
        PluralCategory::Other => "other"@,
    }
}

pub fn plural_category(category: &PluralCategory) -> (r: String)
    ensures
        r@ == category_name(*category),
{
    match category {
        PluralCategory::Zero => String::from_str("zero"),
        PluralCategory::One => String::from_str("one"),
        PluralCategory::Two => String::from_str("two"),
        PluralCategory::Few => String::from_str("few"),
        PluralCategory::Many => String::from_str("many"),
        PluralCategory::Other => String::from_str("other"),
    }
}

/// The categories named and separated by `, `.
pub open spec fn categories_text(cs: Seq<PluralCategory>) -> Seq<char> {
    join(cs.map_values(|c: PluralCategory| category_name(c)), ", "@)
}

pub fn plural_categories(categories: &Vec<PluralCategory>) -> (r: String)
    ensures
        r@ == categories_text(categories@),
{
    let mut names: Vec<String> = Vec::new();
    let mut i: usize = 0;
    while i < categories.len()
        invariant
            i <= categories@.len(),
            names@.len() == i,
            forall|q: int| 0 <= q < i ==> #[trigger] names@[q]@ == category_name(categories@[q]),
        decreases categories.len() - i,
    {
        names.push(plural_category(&categories[i]));
        i = i + 1;
    }
    assert(strings_view(names@) =~= categories@.map_values(|c: PluralCategory| category_name(c)));
    join_strings(&names, ", ")
}

/// `a` comes strictly before `b` in the order of category lists.
pub open spec fn categories_lt(a: Seq<PluralCategory>, b: Seq<PluralCategory>) -> bool
    decreases a.len(),
{
    if a.len() == 0 {
        b.len() > 0
    } else if b.len() == 0 {
        false
    } else if a[0] != b[0] {
        category_rank(a[0]) < category_rank(b[0])
    } else {
        categories_lt(a.drop_first(), b.drop_first())
    }
}

pub proof fn lemma_categories_irrefl(a: Seq<PluralCategory>)
    ensures
        !categories_lt(a, a),
    decreases a.len(),
{
    if a.len() > 0 {
        lemma_categories_irrefl(a.drop_first());
    }
}

pub proof fn lemma_categories_trans(a: Seq<PluralCategory>, b: Seq<PluralCategory>, c: Seq<PluralCategory>)
    requires
        categories_lt(a, b),
        categories_lt(b, c),
    ensures
        categories_lt(a, c),
    decreases a.len(),
{
    if a.len() > 0 && b.len() > 0 && c.len() > 0 && a[0] == b[0] && b[0] == c[0] {
        lemma_categories_trans(a.drop_first(), b.drop_first(), c.drop_first());
    }
}

pub proof fn lemma_categories_total(a: Seq<PluralCategory>, b: Seq<PluralCategory>)
    ensures
        a == b || categories_lt(a, b) || categories_lt(b, a),
    decreases a.len(),
{
    if a.len() > 0 && b.len() > 0 && a[0] == b[0] {
        lemma_categories_total(a.drop_first(), b.drop_first());
        if a.drop_first() == b.drop_first() {
            assert(a =~= b) by {
                assert(a == seq![a[0]] + a.drop_first());
                assert(b == seq![b[0]] + b.drop_first());
            }
        }
    } else if a.len() == 0 && b.len() == 0 {
        assert(a =~= b);
    }
}

/// The order the plural issues of a file are reported in: by language, key,
/// missing categories, then present ones.
pub open spec fn plural_le(a: PluralIssueView, b: PluralIssueView) -> bool {
    lex_lt(a.language, b.language) || (a.language == b.language && (lex_lt(a.key, b.key) || (a.key
        == b.key && (categories_lt(a.missing, b.missing) || (a.missing == b.missing && (a.have
        == b.have || categories_lt(a.have, b.have)))))))
}

pub open spec fn plural_order() -> spec_fn(PluralIssueView, PluralIssueView) -> bool {
    |a: PluralIssueView, b: PluralIssueView| plural_le(a, b)
}

pub proof fn lemma_plural_order()
    ensures
        total_ordering(plural_order()),
{
    let r = plural_order();
    assert forall|x: PluralIssueView| #[trigger] r(x, x) by {}
    assert forall|x: PluralIssueView, y: PluralIssueView| #[trigger] r(x, y) && r(y, x) implies x == y by {
        if lex_lt(x.language, y.language) {
            lemma_lex_asym(x.language, y.language);
            lemma_lex_irrefl(x.language);
        } else if lex_lt(y.language, x.language) {
            lemma_lex_irrefl(y.language);
        } else if lex_lt(x.key, y.key) {
            lemma_lex_asym(x.key, y.key);
            lemma_lex_irrefl(x.key);
        } else if lex_lt(y.key, x.key) {
            lemma_lex_irrefl(y.key);
        } else if categories_lt(x.missing, y.missing) {
            if categories_lt(y.missing, x.missing) {
                lemma_categories_trans(x.missing, y.missing, x.missing);
            }
            lemma_categories_irrefl(x.missing);
        } else if categories_lt(y.missing, x.missing) {
            lemma_categories_irrefl(y.missing);
        } else if x.have != y.have {
            if categories_lt(x.have, y.have) && categories_lt(y.have, x.have) {
                lemma_categories_trans(x.have, y.have, x.have);
                lemma_categories_irrefl(x.have);
            }
        }
    }
    assert forall|x: PluralIssueView, y: PluralIssueView, z: PluralIssueView|
        #[trigger] r(x, y) && #[trigger] r(y, z) implies r(x, z) by {
        if lex_lt(x.language, y.language) && lex_lt(y.language, z.language) {
            lemma_lex_trans(x.language, y.language, z.language);
        } else if x.language == y.language && y.language == z.language {
            if lex_lt(x.key, y.key) && lex_lt(y.key, z.key) {
                lemma_lex_trans(x.key, y.key, z.key);
            } else if x.key == y.key && y.key == z.key {
                if categories_lt(x.missing, y.missing) && categories_lt(y.missing, z.missing) {
                    lemma_categories_trans(x.missing, y.missing, z.missing);
                } else if x.missing == y.missing && y.missing == z.missing {
                    if categories_lt(x.have, y.have) && categories_lt(y.have, z.have) {
                        lemma_categories_trans(x.have, y.have, z.have);
                    }
                }
            }
        }
    }
    assert forall|x: PluralIssueView, y: PluralIssueView| #[trigger] r(x, y) || r(y, x) by {
        lemma_lex_total(x.language, y.language);
        lemma_lex_total(x.key, y.key);
        lemma_categories_total(x.missing, y.missing);
        lemma_categories_total(x.have, y.have);
    }
}

fn category_rank_of(c: &PluralCategory) -> (r: u8)
    ensures
        r == category_rank(*c),
{
    match c {
        PluralCategory::Zero => 0,
        PluralCategory::One => 1,
        PluralCategory::Two => 2,
        PluralCategory::Few => 3,
        PluralCategory::Many => 4,
        PluralCategory::Other => 5,
    }
}

fn categories_less(a: &Vec<PluralCategory>, b: &Vec<PluralCategory>) -> (r: bool)
    ensures
        r == categories_lt(a@, b@),
{
    let mut i: usize = 0;
    assert(a@.skip(0) =~= a@);
    assert(b@.skip(0) =~= b@);
    while i < a.len() && i < b.len() && a[i] == b[i]
        invariant
            i <= a@.len(),
            i <= b@.len(),
            categories_lt(a@, b@) == categories_lt(a@.skip(i as int), b@.skip(i as int)),
        decreases a.len() - i,
    {
        assert(a@.skip(i as int).drop_first() =~= a@.skip(i + 1));
        assert(b@.skip(i as int).drop_first() =~= b@.skip(i + 1));
        i = i + 1;
    }
    if i == a.len() {
        assert(a@.skip(i as int).len() == 0);
        i < b.len()
    } else if i == b.len() {
        false
    } else {
        assert(a@.skip(i as int)[0] == a@[i as int] && b@.skip(i as int)[0] == b@[i as int]);
        category_rank_of(&a[i]) < category_rank_of(&b[i])
    }
}

fn categories_equal(a: &Vec<PluralCategory>, b: &Vec<PluralCategory>) -> (r: bool)
    ensures
        r == (a@ == b@),
{
    if a.len() != b.len() {
        return false;
    }
    let mut i: usize = 0;
    while i < a.len()
        invariant
            i <= a@.len(),
            a@.len() == b@.len(),
            forall|j: int| 0 <= j < i ==> a@[j] == b@[j],
        decreases a.len() - i,
    {
        if a[i] != b[i] {
            return false;
        }
        i = i + 1;
    }
    assert(a@ =~= b@);
    true
}

fn plural_before_or_same(a: &PluralIssue, b: &PluralIssue) -> (r: bool)
    ensures
        r == plural_le(a@, b@),
{
    let al = chars_of(a.language.as_str());
    let bl = chars_of(b.language.as_str());
    if lex_less(al.as_slice(), bl.as_slice()) {
        return true;
    }
    if !str_eq(a.language.as_str(), b.language.as_str()) {
        return false;
    }
    let ak = chars_of(a.key.as_str());
    let bk = chars_of(b.key.as_str());
    if lex_less(ak.as_slice(), bk.as_slice()) {
        return true;
    }
    if !str_eq(a.key.as_str(), b.key.as_str()) {
        return false;
    }
    if categories_less(&a.missing, &b.missing) {
        return true;
    }
    if !categories_equal(&a.missing, &b.missing) {
        return false;
    }
    categories_equal(&a.have, &b.have) || categories_less(&a.have, &b.have)
}

fn copy_categories(v: &Vec<PluralCategory>) -> (r: Vec<PluralCategory>)
    ensures
        r@ == v@,
{
    let mut r: Vec<PluralCategory> = Vec::new();
    let mut i: usize = 0;
    while i < v.len()
        invariant
            i <= v@.len(),
            r@ == v@.take(i as int),
        decreases v.len() - i,
    {
        r.push(v[i]);
        assert(r@ =~= v@.take(i + 1));
        i = i + 1;
    }
    assert(v@.take(i as int) =~= v@);
    r
}

impl PluralIssue {
    pub fn copy(&self) -> (r: PluralIssue)
        ensures
            r@ == self@,
    {
        PluralIssue {
            language: self.language.clone(),
            key: self.key.clone(),
            missing: copy_categories(&self.missing),
            have: copy_categories(&self.have),
        }
    }
}

/// The plural issues in report order.
pub fn sort_plural_issues(v: &Vec<PluralIssue>) -> (r: Vec<PluralIssue>)
    ensures
        plural_issues_view(r@) == plural_issues_view(v@).sort_by(plural_order()),
{
    let ghost sv = plural_issues_view(v@);
    let mut r: Vec<PluralIssue> = Vec::new();
    let mut i: usize = 0;
    proof {
        lemma_plural_order();
    }
    while i < v.len()
        invariant
            i <= v@.len(),
            sv == plural_issues_view(v@),
            total_ordering(plural_order()),
            sorted_by(plural_issues_view(r@), plural_order()),
            plural_issues_view(r@).to_multiset() == sv.take(i as int).to_multiset(),
        decreases v.len() - i,
    {
        let x = v[i].copy();
        let mut p: usize = 0;
        while p < r.len() && plural_before_or_same(&r[p], &x)
            invariant
                p <= r@.len(),
                forall|k: int| 0 <= k < p ==> plural_le(#[trigger] plural_issues_view(r@)[k], x@),
            decreases r.len() - p,
        {
            p = p + 1;
        }
        let ghost before = plural_issues_view(r@);
        proof {
            if p < r@.len() {
                assert(plural_order()(x@, before[p as int]) || plural_order()(before[p as int], x@));
            }
            crate::order::lemma_insert_sorted(before, p as int, x@, plural_order());
            assert(sv.take(i + 1) =~= sv.take(i as int).push(x@));
        }
        r.insert(p, x);
        assert(plural_issues_view(r@) =~= before.insert(p as int, v@[i as int]@));
        i = i + 1;
    }
    proof {
        assert(sv.take(v@.len() as int) =~= sv);
        sv.lemma_sort_by_ensures(plural_order());
        vstd::seq_lib::lemma_sorted_unique(plural_issues_view(r@), sv.sort_by(plural_order()), plural_order());
    }
    r
}

/// An issue about one path.
pub open spec fn path_issue(path: Seq<char>, kind: IssueKind, message: Seq<char>) -> IssueView {
    IssueView { path: path, paths: seq![path], kind: kind, message: message }
}

/// The structure and locale issues of one resource: no entries, and a
/// language that does not parse.
pub open spec fn one_resource_issues(path: Seq<char>, r: ResourceView) -> Seq<IssueView> {
    let lang = r.metadata.language;
    (if r.entries.len() == 0 {
        seq![
            path_issue(
                path,
                IssueKind::Structure,
                "Resource for language '"@ + lang + "' in domain '"@ + r.metadata.domain
                    + "' has no entries"@,
            ),
        ]
    } else {
        Seq::empty()
    }) + (if langid_canonical(lang) is None {
        seq![
            path_issue(
                path,
                IssueKind::Locale,
                "invalid locale identity '"@ + lang + "'; expected a Unicode language identifier"@,
            ),
        ]
    } else {
        Seq::empty()
    })
}

pub open spec fn resource_issues(path: Seq<char>, rs: Seq<ResourceView>, n: int) -> Seq<IssueView>
    decreases n,
{
    if n <= 0 {
        Seq::empty()
    } else {
        resource_issues(path, rs, n - 1) + one_resource_issues(path, rs[n - 1])
    }
}

/// The identity (canonical locale and domain) of each of the first `n`
/// resources whose language parses.
pub open spec fn identity_keys(rs: Seq<ResourceView>, n: int) -> Seq<(Seq<char>, Seq<char>)>
    decreases n,
{
    if n <= 0 {
        Seq::empty()
    } else {
        let prev = identity_keys(rs, n - 1);
        match langid_canonical(rs[n - 1].metadata.language) {
            Some(c) => prev.push((c, rs[n - 1].metadata.domain)),
            None => prev,
        }
    }
}

/// The language spellings of the first `n` resources of one identity.
pub open spec fn spellings_of(rs: Seq<ResourceView>, key: (Seq<char>, Seq<char>), n: int) -> Seq<Seq<char>>
    decreases n,
{
    if n <= 0 {
        Seq::empty()
    } else {
        let prev = spellings_of(rs, key, n - 1);
        let r = rs[n - 1];
        if langid_canonical(r.metadata.language) == Some(key.0) && r.metadata.domain == key.1 {
            prev.push(r.metadata.language)
        } else {
            prev
        }
    }
}

pub open spec fn duplicate_identity_message(key: (Seq<char>, Seq<char>), spellings: Seq<Seq<char>>) -> Seq<
    char,
> {
    "catalog contains "@ + decimal(spellings.len()) + " resources with duplicate identity (locale '"@ + key.0
        + "', domain '"@ + key.1 + "'): ["@ + join(spellings.sort_by(crate::order::text_leq()), ", "@)
        + "]"@
}

/// An issue for each identity that more than one resource has, identities
/// in order.
pub open spec fn duplicate_identity_issues(
    path: Seq<char>,
    rs: Seq<ResourceView>,
    keys: Seq<(Seq<char>, Seq<char>)>,
) -> Seq<IssueView>
    decreases keys.len(),
{
    if keys.len() == 0 {
        Seq::empty()
    } else {
        let prev = duplicate_identity_issues(path, rs, keys.drop_last());
        let sp = spellings_of(rs, keys.last(), rs.len() as int);
        if sp.len() >= 2 {
            prev.push(path_issue(path, IssueKind::Locale, duplicate_identity_message(keys.last(), sp)))
        } else {
            prev
        }
    }
}

pub open spec fn plural_message(p: PluralIssueView) -> Seq<char> {
    "language '"@ + p.language + "' key '"@ + p.key + "': missing ["@ + categories_text(p.missing)
        + "] (have ["@ + categories_text(p.have) + "])"@
}

/// The issues `check` finds in one parsed file: no resources; per resource,
/// no entries and an unparsable language; identities held by more than one
/// resource; then the plural issues in order.
pub open spec fn file_validation_issues(
    path: Seq<char>,
    rs: Seq<ResourceView>,
    plurals: Seq<PluralIssueView>,
) -> Seq<IssueView> {
    (if rs.len() == 0 {
        seq![path_issue(path, IssueKind::Structure, "No resources found"@)]
    } else {
        Seq::empty()
    }) + resource_issues(path, rs, rs.len() as int) + duplicate_identity_issues(
        path,
        rs,
        dedup_seq(identity_keys(rs, rs.len() as int).sort_by(key_order())),
    ) + plurals.sort_by(plural_order()).map_values(
        |p: PluralIssueView| path_issue(path, IssueKind::Plural, plural_message(p)),
    )
}

fn push_issue(issues: &mut Vec<CheckIssue>, path: &str, kind: IssueKind, message: String)
    ensures
        issues_view(final(issues)@) == issues_view(old(issues)@).push(path_issue(path@, kind, message@)),
{
    let issue = CheckIssue::for_path(path, kind, message);
    issues.push(issue);
    assert(issues_view(issues@) =~= issues_view(old(issues)@).push(path_issue(path@, kind, message@)));
}

pub fn collect_file_validation_issues(
    path: &str,
    codec: &Codec,
    plural_issues: &Vec<PluralIssue>,
    issues: &mut Vec<CheckIssue>,
)
    ensures
        issues_view(final(issues)@) == issues_view(old(issues)@) + file_validation_issues(
            path@,
            codec@,
            plural_issues_view(plural_issues@),
        ),
{
    let ghost rs = codec@;
    let ghost start = issues_view(issues@);
    if codec.resources.len() == 0 {
        push_issue(issues, path, IssueKind::Structure, String::from_str("No resources found"));
    }
    let ghost head = issues_view(issues@);
    assert(head == start + (if rs.len() == 0 {
        seq![path_issue(path@, IssueKind::Structure, "No resources found"@)]
    } else {
        Seq::<IssueView>::empty()
    }));
    let mut identities: Vec<(String, String)> = Vec::new();
    let mut canon: Vec<Option<String>> = Vec::new();
    let mut i: usize = 0;
    while i < codec.resources.len()
        invariant
            i <= rs.len(),
            rs == codec@,
            issues_view(issues@) == head + resource_issues(path@, rs, i as int),
            keys_view(identities@) == identity_keys(rs, i as int),
            canon@.len() == i,
            forall|q: int| 0 <= q < i ==> #[trigger] crate::model::opt_seq(canon@[q]) == langid_canonical(rs[q].metadata.language),
        decreases codec.resources.len() - i,
    {
        let res = &codec.resources[i];
        assert(rs[i as int] == res@);
        let ghost before = issues_view(issues@);
        if res.entries.len() == 0 {
            let mut m = String::from_str("Resource for language '");
            m.append(res.metadata.language.as_str());
            m.append("' in domain '");
            m.append(res.metadata.domain.as_str());
            m.append("' has no entries");
            push_issue(issues, path, IssueKind::Structure, m);
        }
        let c = crate::langid::canonical_language_id(res.metadata.language.as_str());
        let ghost kprev = keys_view(identities@);
        match &c {
            Some(lang) => {
                identities.push((lang.clone(), res.metadata.domain.clone()));
                assert(keys_view(identities@) =~= kprev.push((lang@, res@.metadata.domain)));
            },
            None => {
                let mut m = String::from_str("invalid locale identity '");
                m.append(res.metadata.language.as_str());
                m.append("'; expected a Unicode language identifier");
                push_issue(issues, path, IssueKind::Locale, m);
            },
        }
        assert(issues_view(issues@) =~= before + one_resource_issues(path@, rs[i as int]));
        canon.push(c);
        i = i + 1;
    }
    let keys = sorted_unique_keys(&identities);
    let ghost kv = keys_view(keys@);
    let ghost mid = issues_view(issues@);
    let mut k: usize = 0;
    assert(kv.take(0) =~= Seq::<(Seq<char>, Seq<char>)>::empty());
    while k < keys.len()
        invariant
            k <= keys@.len(),
            kv == keys_view(keys@),
            rs == codec@,
            canon@.len() == rs.len(),
            forall|q: int| 0 <= q < rs.len() ==> #[trigger] crate::model::opt_seq(canon@[q]) == langid_canonical(rs[q].metadata.language),
            issues_view(issues@) == mid + duplicate_identity_issues(path@, rs, kv.take(k as int)),
        decreases keys.len() - k,
    {
        assert(kv.take(k + 1).drop_last() =~= kv.take(k as int));
        let key = &keys[k];
        let ghost kk = kv[k as int];
        assert(kk == (key.0@, key.1@));
        let mut spellings: Vec<String> = Vec::new();
        let mut j: usize = 0;
        while j < codec.resources.len()
            invariant
                j <= rs.len(),
                rs == codec@,
                kk == (key.0@, key.1@),
                canon@.len() == rs.len(),
                forall|q: int| 0 <= q < rs.len() ==> #[trigger] crate::model::opt_seq(canon@[q]) == langid_canonical(rs[q].metadata.language),
                strings_view(spellings@) == spellings_of(rs, kk, j as int),
            decreases codec.resources.len() - j,
        {
            let res = &codec.resources[j];
            assert(rs[j as int] == res@);
            let ghost q0 = crate::model::opt_seq(canon@[j as int]);
            assert(q0 == langid_canonical(rs[j as int].metadata.language));
            let same = match &canon[j] {
                Some(cj) => str_eq(cj.as_str(), key.0.as_str()) && str_eq(res.metadata.domain.as_str(), key.1.as_str()),
                None => false,
            };
            let ghost sprev = strings_view(spellings@);
            if same {
                spellings.push(res.metadata.language.clone());
                assert(strings_view(spellings@) =~= sprev.push(res@.metadata.language));
            }
            j = j + 1;
        }
        if spellings.len() >= 2 {
            let ghost sp = strings_view(spellings@);
            let n = spellings.len();
            let sorted = crate::order::sort_texts(spellings);
            let listed = join_strings(&sorted, ", ");
            let mut m = String::from_str("catalog contains ");
            let ns = usize_to_string(n);
            m.append(ns.as_str());
            m.append(" resources with duplicate identity (locale '");
            m.append(key.0.as_str());
            m.append("', domain '");
            m.append(key.1.as_str());
            m.append("'): [");
            m.append(listed.as_str());
            m.append("]");
            assert(m@ == duplicate_identity_message(kk, sp));
            push_issue(issues, path, IssueKind::Locale, m);
        }
        k = k + 1;
    }
    assert(kv.take(k as int) =~= kv);
    let ghost tail = issues_view(issues@);
    let sorted = sort_plural_issues(plural_issues);
    let ghost pv = plural_issues_view(sorted@);
    let mut q: usize = 0;
    while q < sorted.len()
        invariant
            q <= sorted@.len(),
            pv == plural_issues_view(sorted@),
            issues_view(issues@) == tail + pv.take(q as int).map_values(
                |p: PluralIssueView| path_issue(path@, IssueKind::Plural, plural_message(p)),
            ),
        decreases sorted.len() - q,
    {
        let p = &sorted[q];
        let mut m = String::from_str("language '");
        m.append(p.language.as_str());
        m.append("' key '");
        m.append(p.key.as_str());
        m.append("': missing [");
        let ms = plural_categories(&p.missing);
        m.append(ms.as_str());
        m.append("] (have [");
        let hs = plural_categories(&p.have);
        m.append(hs.as_str());
        m.append("])");
        assert(pv[q as int] == p@);
        push_issue(issues, path, IssueKind::Plural, m);
        assert(pv.take(q + 1) =~= pv.take(q as int).push(pv[q as int]));
        assert(issues_view(issues@) =~= tail + pv.take(q + 1).map_values(
            |p: PluralIssueView| path_issue(path@, IssueKind::Plural, plural_message(p)),
        ));
        q = q + 1;
    }
    assert(pv.take(q as int) =~= pv);
}

/// What `check` reports: whether no issue was found, how many files were
/// checked, and the issues in report order.
#[derive(Debug)]
pub struct CheckReport {
    pub valid: bool,
    pub files_checked: usize,
    pub issues: Vec<CheckIssue>,
}

/// A `check` run in progress: the files checked so far, the issues found so
/// far (in discovery order), and the placeholder observations.
pub struct CheckRun {
    pub files_checked: usize,
    pub issues: Vec<CheckIssue>,
    pub validator: PlaceholderValidator,
}

/// The report of a run that stops on input issues before reading any file.
pub open spec fn early_report_issues(issues: Seq<IssueView>) -> Seq<IssueView> {
    dedup_issues(issues.sort_by(issue_order()))
}

/// Starts a run from the issues of input expansion: without
/// `continue_on_error`, any such issue ends the run at once with a failed
/// report; otherwise the run starts with them.
pub fn start_check_run(issues: Vec<CheckIssue>, continue_on_error: bool) -> (r: Result<CheckRun, CheckReport>)
    ensures
        issues@.len() > 0 && !continue_on_error ==> (r matches Err(rep) && !rep.valid && rep.files_checked
            == 0 && issues_view(rep.issues@) == early_report_issues(issues_view(issues@))),
        !(issues@.len() > 0 && !continue_on_error) ==> (r matches Ok(run) && run.files_checked == 0
            && issues_view(run.issues@) == issues_view(issues@) && run.validator@ == Seq::<RecordView>::empty()),
{
    if issues.len() > 0 && !continue_on_error {
        let mut sorted = issues;
        sort_issues(&mut sorted);
        Err(CheckReport { valid: false, files_checked: 0, issues: sorted })
    } else {
        Ok(CheckRun { files_checked: 0, issues, validator: PlaceholderValidator::new() })
    }
}

/// Counts a file that parsed: its validation issues are added and its
/// entries observed. Returns whether the file failed (it added issues, or a
/// placeholder group it touched has issues).
pub fn check_parsed_file(
    run: &mut CheckRun,
    path: &str,
    codec: &Codec,
    plural_issues: &Vec<PluralIssue>,
    signatures: &Vec<Vec<Vec<String>>>,
) -> (failed: bool)
    requires
        old(run).files_checked < usize::MAX,
        signatures@.len() == codec@.len(),
        forall|i: int| 0 <= i < codec@.len() ==> #[trigger] signatures@[i]@.len() == codec@[i].entries.len(),
    ensures
        final(run).files_checked == old(run).files_checked + 1,
        issues_view(final(run).issues@) == issues_view(old(run).issues@) + file_validation_issues(
            path@,
            codec@,
            plural_issues_view(plural_issues@),
        ),
        final(run).validator@ == old(run).validator@ + file_records(
            path@,
            codec@,
            signatures_view(signatures@),
            codec@.len() as int,
        ),
        failed == (file_validation_issues(path@, codec@, plural_issues_view(plural_issues@)).len() > 0
            || exists|i: int|
            old(run).validator@.len() <= i < final(run).validator@.len() && #[trigger] group_issues(
                final(run).validator@[i].domain,
                final(run).validator@[i].key,
                languages_for(
                    final(run).validator@,
                    final(run).validator@[i].domain,
                    final(run).validator@[i].key,
                ),
            ).len() > 0),
{
    run.files_checked = run.files_checked + 1;
    let before = run.issues.len();
    collect_file_validation_issues(path, codec, plural_issues, &mut run.issues);
    let placeholder_failure = run.validator.add_file(path, codec, signatures);
    assert(issues_view(run.issues@).len() == run.issues@.len());
    assert(issues_view(old(run).issues@).len() == before);
    run.issues.len() != before || placeholder_failure
}

/// Counts a file that could not be read: a parse issue with the reader's
/// message. Such a file always fails.
pub fn check_unreadable_file(run: &mut CheckRun, path: &str, error: String) -> (failed: bool)
    requires
        old(run).files_checked < usize::MAX,
    ensures
        final(run).files_checked == old(run).files_checked + 1,
        issues_view(final(run).issues@) == issues_view(old(run).issues@).push(
            path_issue(path@, IssueKind::Parse, error@),
        ),
        final(run).validator@ == old(run).validator@,
        failed,
{
    run.files_checked = run.files_checked + 1;
    push_issue(&mut run.issues, path, IssueKind::Parse, error);
    true
}

/// What reading one file gave.
pub enum FileCheck {
    /// The file parsed: its catalog, the plural issues found in it, and the
    /// placeholder signature of each entry's text (by resource and entry).
    Parsed(Codec, Vec<PluralIssue>, Vec<Vec<Vec<String>>>),
    /// The file could not be read, with the reader's message.
    Unreadable(String),
}

/// A placeholder group touched by the records added after `before` has issues.
pub open spec fn touched_group_fails(records: Seq<RecordView>, before: int) -> bool {
    exists|i: int|
        before <= i < records.len() && #[trigger] group_issues(
            records[i].domain,
            records[i].key,
            languages_for(records, records[i].domain, records[i].key),
        ).len() > 0
}

/// Takes in one file of a run and says whether the run goes on: a file that
/// failed (it could not be read, it added issues, or a placeholder group it
/// touched has issues) ends the run unless `continue_on_error`.
pub fn check_file(run: &mut CheckRun, path: &str, outcome: FileCheck, continue_on_error: bool) -> (go_on: bool)
    requires
        old(run).files_checked < usize::MAX,
        outcome matches FileCheck::Parsed(codec, _, signatures) ==> (signatures@.len() == codec@.len()
            && forall|i: int| 0 <= i < codec@.len() ==> #[trigger] signatures@[i]@.len() == codec@[i].entries.len()),
    ensures
        final(run).files_checked == old(run).files_checked + 1,
        match outcome {
            FileCheck::Parsed(codec, plural_issues, signatures) => {
                &&& issues_view(final(run).issues@) == issues_view(old(run).issues@) + file_validation_issues(
                    path@,
                    codec@,
                    plural_issues_view(plural_issues@),
                )
                &&& final(run).validator@ == old(run).validator@ + file_records(
                    path@,
                    codec@,
                    signatures_view(signatures@),
                    codec@.len() as int,
                )
                &&& go_on == (continue_on_error || !(file_validation_issues(
                    path@,
                    codec@,
                    plural_issues_view(plural_issues@),
                ).len() > 0 || touched_group_fails(final(run).validator@, old(run).validator@.len() as int)))
            },
            FileCheck::Unreadable(error) => {
                &&& issues_view(final(run).issues@) == issues_view(old(run).issues@).push(
                    path_issue(path@, IssueKind::Parse, error@),
                )
                &&& final(run).validator@ == old(run).validator@
                &&& go_on == continue_on_error
            },
        },
{
    let failed = match outcome {
        FileCheck::Parsed(codec, plural_issues, signatures) => check_parsed_file(
            run,
            path,
            &codec,
            &plural_issues,
            &signatures,
        ),
        FileCheck::Unreadable(error) => check_unreadable_file(run, path, error),
    };
    continue_on_error || !failed
}

/// The issues a finished run reports: those found, then the placeholder
/// issues, in report order and each once.
pub open spec fn final_issues(found: Seq<IssueView>, records: Seq<RecordView>) -> Seq<IssueView> {
    dedup_issues((found + validator_issues(records)).sort_by(issue_order()))
}

/// Ends a run: the placeholder issues join the others, all are put in report
/// order, and the report is valid when none is left.
pub fn finish_check_run(run: CheckRun) -> (r: CheckReport)
    ensures
        r.files_checked == run.files_checked,
        issues_view(r.issues@) == final_issues(issues_view(run.issues@), run.validator@),
        r.valid == (final_issues(issues_view(run.issues@), run.validator@).len() == 0),
{
    let CheckRun { files_checked, issues, validator } = run;
    let mut all = issues;
    let ghost found = issues_view(all@);
    let extra = validator.into_issues();
    let ghost ev = issues_view(extra@);
    let mut q: usize = 0;
    while q < extra.len()
        invariant
            q <= extra@.len(),
            ev == issues_view(extra@),
            issues_view(all@) == found + ev.take(q as int),
        decreases extra.len() - q,
    {
        let ghost p0 = issues_view(all@);
        all.push(extra[q].copy());
        assert(issues_view(all@) =~= p0.push(ev[q as int]));
        assert(ev.take(q + 1) =~= ev.take(q as int).push(ev[q as int]));
        q = q + 1;
    }
    assert(ev.take(q as int) =~= ev);
    sort_issues(&mut all);
    let valid = all.len() == 0;
    assert(issues_view(all@).len() == all@.len());
    CheckReport { valid, files_checked, issues: all }
}

pub open spec fn issue_line(i: IssueView) -> Seq<char> {
    "ERROR "@ + join(i.paths, ", "@) + " ["@ + kind_text(i.kind) + "]: "@ + i.message
}

/// The closing line of a text report.
pub open spec fn report_verdict(valid: bool, files: nat, issues: nat) -> Seq<char> {
    if valid {
        "OK: checked "@ + decimal(files) + " file(s); no issues found"@
    } else {
        "FAILED: checked "@ + decimal(files) + " file(s); found "@ + decimal(issues) + " issue(s)"@
    }
}

/// The lines of a text report: one per issue, then the verdict.
pub fn report_lines(report: &CheckReport) -> (r: Vec<String>)
    ensures
        strings_view(r@) == issues_view(report.issues@).map_values(|i: IssueView| issue_line(i)).push(
            report_verdict(report.valid, report.files_checked as nat, report.issues@.len()),
        ),
{
    let ghost iv = issues_view(report.issues@);
    let mut lines: Vec<String> = Vec::new();
    let mut i: usize = 0;
    while i < report.issues.len()
        invariant
            i <= report.issues@.len(),
            iv == issues_view(report.issues@),
            lines@.len() == i,
            forall|q: int| 0 <= q < i ==> #[trigger] lines@[q]@ == issue_line(iv[q]),
        decreases report.issues.len() - i,
    {
        let issue = &report.issues[i];
        let mut m = String::from_str("ERROR ");
        let ps = join_strings(&issue.paths, ", ");
        m.append(ps.as_str());
        m.append(" [");
        m.append(issue.kind.name());
        m.append("]: ");
        m.append(issue.message.as_str());
        lines.push(m);
        i = i + 1;
    }
    let verdict = if report.valid {
        let mut m = String::from_str("OK: checked ");
        let n = usize_to_string(report.files_checked);
        m.append(n.as_str());
        m.append(" file(s); no issues found");
        m
    } else {
        let mut m = String::from_str("FAILED: checked ");
        let n = usize_to_string(report.files_checked);
        m.append(n.as_str());
        m.append(" file(s); found ");
        let k = usize_to_string(report.issues.len());
        m.append(k.as_str());
        m.append(" issue(s)");
        m
    };
    let ghost before = strings_view(lines@);
    lines.push(verdict);
    assert(before =~= iv.map_values(|i: IssueView| issue_line(i)));
    assert(strings_view(lines@) =~= before.push(verdict@));
    lines
}

/// Dropping repeats from a sorted sequence leaves it strictly ordered and
/// holding the same elements.
pub proof fn lemma_dedup_sorted<A>(s: Seq<A>, leq: spec_fn(A, A) -> bool)
    requires
        total_ordering(leq),
        sorted_by(s, leq),
    ensures
        forall|i: int, j: int|
            0 <= i < j < dedup_seq(s).len() ==> leq(#[trigger] dedup_seq(s)[i], #[trigger] dedup_seq(s)[j])
                && dedup_seq(s)[i] != dedup_seq(s)[j],
        forall|x: A| dedup_seq(s).contains(x) <==> s.contains(x),
    decreases s.len(),
{
    if s.len() > 0 {
        let t = s.drop_last();
        assert(sorted_by(t, leq)) by {
            assert forall|i: int, j: int| 0 <= i < j < t.len() implies leq(#[trigger] t[i], #[trigger] t[j]) by {
                assert(t[i] == s[i] && t[j] == s[j]);
            }
        }
        lemma_dedup_sorted(t, leq);
        let d = dedup_seq(s);
        let dt = dedup_seq(t);
        let last = s.last();
        assert forall|x: A| #[trigger] s.contains(x) <==> (t.contains(x) || x == last) by {
            if s.contains(x) {
                let k = choose|k: int| 0 <= k < s.len() && s[k] == x;
                if k < s.len() - 1 {
                    assert(t[k] == x);
                }
            }
            if t.contains(x) {
                let k = choose|k: int| 0 <= k < t.len() && t[k] == x;
                assert(s[k] == x);
            }
            if x == last {
                assert(s[s.len() - 1] == x);
            }
        }
        if s.len() >= 2 && s[s.len() - 2] == last {
            assert(d == dt);
            assert(t.contains(last)) by {
                assert(t[s.len() - 2] == last);
            }
        } else {
            assert(d == dt.push(last));
            assert forall|i: int| 0 <= i < dt.len() implies leq(#[trigger] dt[i], last) && dt[i] != last by {
                assert(dt.contains(dt[i]));
                assert(t.contains(dt[i]));
                let k = choose|k: int| 0 <= k < t.len() && t[k] == dt[i];
                assert(0 <= k < t.len());
                assert(s[k] == t[k]);
                assert(leq(s[k], s[s.len() - 1]));
                if dt[i] == last {
                    assert(leq(s[k], s[s.len() - 2]));
                    assert(leq(s[s.len() - 2], s[s.len() - 1]));
                }
            }
            assert forall|i: int, j: int| 0 <= i < j < d.len() implies leq(#[trigger] d[i], #[trigger] d[j])
                && d[i] != d[j] by {
                if j < dt.len() {
                    assert(d[i] == dt[i] && d[j] == dt[j]);
                } else {
                    assert(d[i] == dt[i] && d[j] == last);
                }
            }
            assert forall|x: A| d.contains(x) <==> s.contains(x) by {
                if d.contains(x) {
                    let k = choose|k: int| 0 <= k < d.len() && d[k] == x;
                    if k < dt.len() {
                        assert(dt[k] == x);
                    }
                }
                if dt.contains(x) {
                    let k = choose|k: int| 0 <= k < dt.len() && dt[k] == x;
                    assert(d[k] == x);
                }
                if x == last {
                    assert(d[dt.len() as int] == x);
                }
            }
        }
    }
}

proof fn lemma_dedup_issues_is_dedup(s: Seq<IssueView>)
    ensures
        dedup_issues(s) == dedup_seq(s),
    decreases s.len(),
{
    if s.len() > 0 {
        lemma_dedup_issues_is_dedup(s.drop_last());
    }
}

proof fn lemma_dedup_adjacent_is_dedup(s: Seq<Seq<char>>)
    ensures
        crate::order::dedup_adjacent(s) == dedup_seq(s),
    decreases s.len(),
{
    if s.len() > 0 {
        lemma_dedup_adjacent_is_dedup(s.drop_last());
    }
}

/// A report lists its issues in report order, each once, and lists exactly
/// the issues found.
pub proof fn lemma_report_ordered(issues: Seq<IssueView>)
    ensures
        ({
            let r = dedup_issues(issues.sort_by(issue_order()));
            &&& forall|i: int, j: int|
                0 <= i < j < r.len() ==> issue_le(#[trigger] r[i], #[trigger] r[j]) && r[i] != r[j]
            &&& forall|x: IssueView| r.contains(x) <==> issues.contains(x)
        }),
{
    lemma_issue_order();
    let t = issues.sort_by(issue_order());
    issues.lemma_sort_by_ensures(issue_order());
    lemma_dedup_issues_is_dedup(t);
    lemma_dedup_sorted(t, issue_order());
    assert forall|x: IssueView| t.contains(x) <==> issues.contains(x) by {
        assert(t.to_multiset().count(x) == issues.to_multiset().count(x));
    }
    let r = dedup_issues(t);
    assert forall|i: int, j: int| 0 <= i < j < r.len() implies issue_le(#[trigger] r[i], #[trigger] r[j])
        && r[i] != r[j] by {
        assert(issue_order()(r[i], r[j]));
    }
}

/// The paths of an issue are strictly ordered and are the paths it was made
/// with, each once; its primary path is the first of them, or `<inputs>`
/// when there is none.
pub proof fn lemma_issue_paths(paths: Seq<Seq<char>>, kind: IssueKind, message: Seq<char>)
    ensures
        ({
            let v = new_issue(paths, kind, message);
            &&& forall|i: int, j: int|
                0 <= i < j < v.paths.len() ==> lex_lt(#[trigger] v.paths[i], #[trigger] v.paths[j])
            &&& forall|p: Seq<char>| v.paths.contains(p) <==> paths.contains(p)
            &&& v.paths.len() > 0 ==> v.path == v.paths[0]
            &&& paths.len() == 0 ==> v.path == "<inputs>"@
        }),
{
    let leq = crate::order::text_leq();
    crate::order::lemma_text_order();
    let t = paths.sort_by(leq);
    paths.lemma_sort_by_ensures(leq);
    lemma_dedup_adjacent_is_dedup(t);
    lemma_dedup_sorted(t, leq);
    assert forall|x: Seq<char>| t.contains(x) <==> paths.contains(x) by {
        assert(t.to_multiset().count(x) == paths.to_multiset().count(x));
    }
    let v = new_issue(paths, kind, message);
    assert forall|i: int, j: int| 0 <= i < j < v.paths.len() implies lex_lt(
        #[trigger] v.paths[i],
        #[trigger] v.paths[j],
    ) by {
        assert(leq(v.paths[i], v.paths[j]));
    }
    if paths.len() == 0 {
        assert(t.to_multiset().len() == 0);
        assert(t.len() == 0);
    }
}

/// Strictly ordered sequences that hold the same elements are equal.
pub proof fn lemma_strictly_sorted_unique<A>(s1: Seq<A>, s2: Seq<A>, leq: spec_fn(A, A) -> bool)
    requires
        total_ordering(leq),
        forall|i: int, j: int| 0 <= i < j < s1.len() ==> leq(#[trigger] s1[i], #[trigger] s1[j]) && s1[i] != s1[j],
        forall|i: int, j: int| 0 <= i < j < s2.len() ==> leq(#[trigger] s2[i], #[trigger] s2[j]) && s2[i] != s2[j],
        forall|x: A| s1.contains(x) <==> s2.contains(x),
    ensures
        s1 == s2,
    decreases s1.len(),
{
    if s1.len() == 0 {
        if s2.len() > 0 {
            assert(s2.contains(s2[0]));
        }
        assert(s1 =~= s2);
    } else {
        assert(s1.contains(s1[0]));
        assert(s2.contains(s1[0]));
        assert(s2.contains(s2[0]));
        assert(s1.contains(s2[0]));
        let k1 = choose|k: int| 0 <= k < s2.len() && s2[k] == s1[0];
        let k2 = choose|k: int| 0 <= k < s1.len() && s1[k] == s2[0];
        if k1 > 0 {
            assert(leq(s2[0], s2[k1]));
        }
        if k2 > 0 {
            assert(leq(s1[0], s1[k2]));
        }
        assert(leq(s2[0], s1[0]));
        assert(leq(s1[0], s2[0]));
        assert(s1[0] == s2[0]);
        let t1 = s1.drop_first();
        let t2 = s2.drop_first();
        assert forall|x: A| t1.contains(x) <==> t2.contains(x) by {
            if t1.contains(x) {
                let k = choose|k: int| 0 <= k < t1.len() && t1[k] == x;
                assert(s1[k + 1] == x && s1[0] != s1[k + 1]);
                assert(s2.contains(x));
                let m = choose|m: int| 0 <= m < s2.len() && s2[m] == x;
                assert(m != 0);
                assert(t2[m - 1] == x);
            }
            if t2.contains(x) {
                let k = choose|k: int| 0 <= k < t2.len() && t2[k] == x;
                assert(s2[k + 1] == x && s2[0] != s2[k + 1]);
                assert(s1.contains(x));
                let m = choose|m: int| 0 <= m < s1.len() && s1[m] == x;
                assert(m != 0);
                assert(t1[m - 1] == x);
            }
        }
        assert forall|i: int, j: int| 0 <= i < j < t1.len() implies leq(#[trigger] t1[i], #[trigger] t1[j])
            && t1[i] != t1[j] by {
            assert(t1[i] == s1[i + 1] && t1[j] == s1[j + 1]);
        }
        assert forall|i: int, j: int| 0 <= i < j < t2.len() implies leq(#[trigger] t2[i], #[trigger] t2[j])
            && t2[i] != t2[j] by {
            assert(t2[i] == s2[i + 1] && t2[j] == s2[j + 1]);
        }
        lemma_strictly_sorted_unique(t1, t2, leq);
        assert(s1 =~= s2) by {
            assert(s1 == seq![s1[0]] + t1);
            assert(s2 == seq![s2[0]] + t2);
        }
    }
}

proof fn lemma_concat_contains<A>(a: Seq<A>, b: Seq<A>, x: A)
    ensures
        (a + b).contains(x) <==> (a.contains(x) || b.contains(x)),
{
    if (a + b).contains(x) {
        let k = choose|k: int| 0 <= k < (a + b).len() && (a + b)[k] == x;
        if k < a.len() {
            assert(a[k] == x);
        } else {
            assert(b[k - a.len()] == x);
        }
    }
    if a.contains(x) {
        let k = choose|k: int| 0 <= k < a.len() && a[k] == x;
        assert((a + b)[k] == x);
    }
    if b.contains(x) {
        let k = choose|k: int| 0 <= k < b.len() && b[k] == x;
        assert((a + b)[a.len() + k] == x);
    }
}

/// A run's report depends on the issues found only through which issues were
/// found: found in another order, or more than once, they give the same
/// report, issue for issue.
pub proof fn lemma_report_independent_of_order(a: Seq<IssueView>, b: Seq<IssueView>, records: Seq<RecordView>)
    requires
        forall|x: IssueView| a.contains(x) <==> b.contains(x),
    ensures
        final_issues(a, records) == final_issues(b, records),
{
    let v = validator_issues(records);
    lemma_report_ordered(a + v);
    lemma_report_ordered(b + v);
    assert forall|x: IssueView| (a + v).contains(x) <==> (b + v).contains(x) by {
        lemma_concat_contains(a, v, x);
        lemma_concat_contains(b, v, x);
    }
    lemma_issue_order();
    let ra = dedup_issues((a + v).sort_by(issue_order()));
    let rb = dedup_issues((b + v).sort_by(issue_order()));
    assert forall|i: int, j: int| 0 <= i < j < ra.len() implies issue_order()(#[trigger] ra[i], #[trigger] ra[j])
        && ra[i] != ra[j] by {}
    assert forall|i: int, j: int| 0 <= i < j < rb.len() implies issue_order()(#[trigger] rb[i], #[trigger] rb[j])
        && rb[i] != rb[j] by {}
    lemma_strictly_sorted_unique(ra, rb, issue_order());
}

/// Sorting texts and dropping repeats depends only on which texts there are.
pub proof fn lemma_sorted_unique_by_contents(a: Seq<Seq<char>>, b: Seq<Seq<char>>)
    requires
        forall|x: Seq<char>| a.contains(x) <==> b.contains(x),
    ensures
        sorted_unique(a) == sorted_unique(b),
{
    let leq = crate::order::text_leq();
    crate::order::lemma_text_order();
    let ta = a.sort_by(leq);
    let tb = b.sort_by(leq);
    a.lemma_sort_by_ensures(leq);
    b.lemma_sort_by_ensures(leq);
    lemma_dedup_adjacent_is_dedup(ta);
    lemma_dedup_adjacent_is_dedup(tb);
    lemma_dedup_sorted(ta, leq);
    lemma_dedup_sorted(tb, leq);
    assert forall|x: Seq<char>| dedup_seq(ta).contains(x) <==> dedup_seq(tb).contains(x) by {
        assert(ta.to_multiset().count(x) == a.to_multiset().count(x));
        assert(tb.to_multiset().count(x) == b.to_multiset().count(x));
    }
    lemma_strictly_sorted_unique(dedup_seq(ta), dedup_seq(tb), leq);
}

/// The paths the first `n` inputs expand to are those of their expansions.
pub proof fn lemma_expanded_paths_contain(
    inputs: Seq<Seq<char>>,
    walks: Seq<Seq<WalkEntry>>,
    n: int,
    x: Seq<char>,
)
    requires
        0 <= n <= inputs.len(),
        n <= walks.len(),
    ensures
        expanded_paths_upto(inputs, walks, n).contains(x) <==> exists|i: int|
            0 <= i < n && #[trigger] unfiltered_expansion(inputs[i], walks[i]).0.contains(x),
    decreases n,
{
    if n > 0 {
        lemma_expanded_paths_contain(inputs, walks, n - 1, x);
        lemma_concat_contains(
            expanded_paths_upto(inputs, walks, n - 1),
            unfiltered_expansion(inputs[n - 1], walks[n - 1]).0,
            x,
        );
        if exists|i: int| 0 <= i < n && #[trigger] unfiltered_expansion(inputs[i], walks[i]).0.contains(x) {
            let i = choose|i: int| 0 <= i < n && #[trigger] unfiltered_expansion(inputs[i], walks[i]).0.contains(x);
            if i < n - 1 {
                assert(exists|j: int| 0 <= j < n - 1 && #[trigger] unfiltered_expansion(inputs[j], walks[j]).0.contains(x));
            }
        }
    }
}

/// The input issues of one input's expansion.
pub open spec fn input_issues_of(input: Seq<char>, walk: Seq<WalkEntry>) -> Seq<IssueView> {
    unfiltered_expansion(input, walk).1.map_values(|e: Seq<char>| input_issue(input, e))
}

/// The input issues of the first `n` inputs are those of their expansions.
pub proof fn lemma_expansion_issues_contain(
    inputs: Seq<Seq<char>>,
    walks: Seq<Seq<WalkEntry>>,
    n: int,
    x: IssueView,
)
    requires
        0 <= n <= inputs.len(),
        n <= walks.len(),
    ensures
        expansion_issues_upto(inputs, walks, n).contains(x) <==> exists|i: int|
            0 <= i < n && #[trigger] input_issues_of(inputs[i], walks[i]).contains(x),
    decreases n,
{
    if n > 0 {
        lemma_expansion_issues_contain(inputs, walks, n - 1, x);
        lemma_concat_contains(
            expansion_issues_upto(inputs, walks, n - 1),
            input_issues_of(inputs[n - 1], walks[n - 1]),
            x,
        );
        if exists|i: int|
            0 <= i < n && #[trigger] input_issues_of(inputs[i], walks[i]).contains(x) {
            let i = choose|i: int|
                0 <= i < n && #[trigger] input_issues_of(inputs[i], walks[i]).contains(x);
            if i < n - 1 {
                assert(exists|j: int|
                    0 <= j < n - 1 && #[trigger] input_issues_of(inputs[j], walks[j]).contains(x));
            }
        }
    }
}

/// Each (input, walk) pair of one list is one of the other's.
pub open spec fn same_inputs(
    i1: Seq<Seq<char>>,
    w1: Seq<Seq<WalkEntry>>,
    i2: Seq<Seq<char>>,
    w2: Seq<Seq<WalkEntry>>,
) -> bool {
    &&& i1.len() == w1.len()
    &&& i2.len() == w2.len()
    &&& forall|a: int| 0 <= a < i1.len() ==> exists|b: int| 0 <= b < i2.len() && #[trigger] i1[a] == #[trigger] i2[b] && w1[a] == w2[b]
    &&& forall|b: int| 0 <= b < i2.len() ==> exists|a: int| 0 <= a < i1.len() && #[trigger] i1[a] == #[trigger] i2[b] && w1[a] == w2[b]
}

/// Giving `check` the same inputs in another order (or more than once), over
/// the same file system, makes it read the same files in the same order and
/// find the same input issues; so the issues it reports, once the files are
/// taken in (`lemma_report_independent_of_order`), are the same.
pub proof fn lemma_expansion_independent_of_order(
    i1: Seq<Seq<char>>,
    w1: Seq<Seq<WalkEntry>>,
    i2: Seq<Seq<char>>,
    w2: Seq<Seq<WalkEntry>>,
)
    requires
        same_inputs(i1, w1, i2, w2),
    ensures
        sorted_unique(expanded_paths_upto(i1, w1, i1.len() as int)) == sorted_unique(
            expanded_paths_upto(i2, w2, i2.len() as int),
        ),
        forall|x: IssueView|
            expansion_issues_upto(i1, w1, i1.len() as int).contains(x) <==> expansion_issues_upto(
                i2,
                w2,
                i2.len() as int,
            ).contains(x),
{
    let p1 = expanded_paths_upto(i1, w1, i1.len() as int);
    let p2 = expanded_paths_upto(i2, w2, i2.len() as int);
    assert forall|x: Seq<char>| p1.contains(x) <==> p2.contains(x) by {
        lemma_expanded_paths_contain(i1, w1, i1.len() as int, x);
        lemma_expanded_paths_contain(i2, w2, i2.len() as int, x);
        if p1.contains(x) {
            let a = choose|a: int| 0 <= a < i1.len() && #[trigger] unfiltered_expansion(i1[a], w1[a]).0.contains(x);
            let b = choose|b: int| 0 <= b < i2.len() && i1[a] == i2[b] && w1[a] == w2[b];
            assert(unfiltered_expansion(i2[b], w2[b]).0.contains(x));
        }
        if p2.contains(x) {
            let b = choose|b: int| 0 <= b < i2.len() && #[trigger] unfiltered_expansion(i2[b], w2[b]).0.contains(x);
            let a = choose|a: int| 0 <= a < i1.len() && i1[a] == i2[b] && w1[a] == w2[b];
            assert(unfiltered_expansion(i1[a], w1[a]).0.contains(x));
        }
    }
    lemma_sorted_unique_by_contents(p1, p2);
    let q1 = expansion_issues_upto(i1, w1, i1.len() as int);
    let q2 = expansion_issues_upto(i2, w2, i2.len() as int);
    assert forall|x: IssueView| q1.contains(x) <==> q2.contains(x) by {
        lemma_expansion_issues_contain(i1, w1, i1.len() as int, x);
        lemma_expansion_issues_contain(i2, w2, i2.len() as int, x);
        if q1.contains(x) {
            let a = choose|a: int|
                0 <= a < i1.len() && #[trigger] input_issues_of(i1[a], w1[a]).contains(x);
            let b = choose|b: int| 0 <= b < i2.len() && i1[a] == i2[b] && w1[a] == w2[b];
            assert(input_issues_of(i2[b], w2[b]).contains(x));
        }
        if q2.contains(x) {
            let b = choose|b: int|
                0 <= b < i2.len() && #[trigger] input_issues_of(i2[b], w2[b]).contains(x);
            let a = choose|a: int| 0 <= a < i1.len() && i1[a] == i2[b] && w1[a] == w2[b];
            assert(input_issues_of(i1[a], w1[a]).contains(x));
        }
    }
}

/// A check run depends on its inputs only through which inputs there are.
/// Given them in another order, or some more than once, over the same file
/// system, it reads the same files in the same order; it stops before reading
/// any file in the same cases, with the same report; and otherwise, as the
/// files then give the same issues and placeholder records, it reports the
/// same issues in the same order.
pub proof fn lemma_check_independent_of_input_order(
    i1: Seq<Seq<char>>,
    w1: Seq<Seq<WalkEntry>>,
    i2: Seq<Seq<char>>,
    w2: Seq<Seq<WalkEntry>>,
    file_issues: Seq<IssueView>,
    records: Seq<RecordView>,
)
    requires
        same_inputs(i1, w1, i2, w2),
    ensures
        sorted_unique(expanded_paths_upto(i1, w1, i1.len() as int)) == sorted_unique(
            expanded_paths_upto(i2, w2, i2.len() as int),
        ),
        (expansion_issues_upto(i1, w1, i1.len() as int).len() > 0) == (expansion_issues_upto(
            i2,
            w2,
            i2.len() as int,
        ).len() > 0),
        early_report_issues(expansion_issues_upto(i1, w1, i1.len() as int)) == early_report_issues(
            expansion_issues_upto(i2, w2, i2.len() as int),
        ),
        final_issues(expansion_issues_upto(i1, w1, i1.len() as int) + file_issues, records)
            == final_issues(expansion_issues_upto(i2, w2, i2.len() as int) + file_issues, records),
{
    lemma_expansion_independent_of_order(i1, w1, i2, w2);
    let q1 = expansion_issues_upto(i1, w1, i1.len() as int);
    let q2 = expansion_issues_upto(i2, w2, i2.len() as int);
    if q1.len() > 0 {
        assert(q1.contains(q1[0]));
    }
    if q2.len() > 0 {
        assert(q2.contains(q2[0]));
    }
    lemma_report_ordered(q1);
    lemma_report_ordered(q2);
    lemma_issue_order();
    let r1 = early_report_issues(q1);
    let r2 = early_report_issues(q2);
    assert forall|i: int, j: int| 0 <= i < j < r1.len() implies issue_order()(#[trigger] r1[i], #[trigger] r1[j])
        && r1[i] != r1[j] by {}
    assert forall|i: int, j: int| 0 <= i < j < r2.len() implies issue_order()(#[trigger] r2[i], #[trigger] r2[j])
        && r2[i] != r2[j] by {}
    lemma_strictly_sorted_unique(r1, r2, issue_order());
    assert forall|x: IssueView| (q1 + file_issues).contains(x) <==> (q2 + file_issues).contains(x) by {
        lemma_concat_contains(q1, file_issues, x);
        lemma_concat_contains(q2, file_issues, x);
    }
    lemma_report_independent_of_order(q1 + file_issues, q2 + file_issues, records);
}

/// Each record made from a resource's entries is that entry's: same key,
/// domain, language and path; it carries a placeholder signature exactly when
/// the entry has a singular text, and then the signature of that text. An
/// empty or plural entry carries none, so no placeholder mismatch can name it.
pub proof fn lemma_resource_records_signatures(
    path: Seq<char>,
    r: ResourceView,
    lang: Seq<char>,
    sigs: Seq<Seq<Seq<char>>>,
    m: int,
)
    requires
        0 <= m <= r.entries.len(),
    ensures
        resource_records(path, r, lang, sigs, m).len() == m,
        forall|i: int|
            0 <= i < m ==> {
                let rec = #[trigger] resource_records(path, r, lang, sigs, m)[i];
                &&& rec.key == r.entries[i].id
                &&& rec.domain == r.metadata.domain
                &&& rec.language == lang
                &&& rec.observation.path == path
                &&& (r.entries[i].value is Singular ==> rec.observation.signature == Some(sigs[i]))
                &&& (!(r.entries[i].value is Singular) ==> rec.observation.signature is None)
            },
    decreases m,
{
    if m > 0 {
        lemma_resource_records_signatures(path, r, lang, sigs, m - 1);
        let prev = resource_records(path, r, lang, sigs, m - 1);
        let all = resource_records(path, r, lang, sigs, m);
        assert forall|i: int| 0 <= i < m - 1 implies #[trigger] all[i] == prev[i] by {}
    }
}

/// `rec` was made from entry `e` of a resource with domain `domain`, read
/// from `path`: it has the entry's key and domain, and a placeholder
/// signature exactly when the entry has a singular text.
pub open spec fn record_of_entry(rec: RecordView, domain: Seq<char>, e: crate::model::EntryView, path: Seq<char>) -> bool {
    &&& rec.key == e.id
    &&& rec.domain == domain
    &&& rec.observation.path == path
    &&& (rec.observation.signature is Some <==> e.value is Singular)
}

/// `rec` was made from an entry of one of the first `n` resources of `rs`
/// (see `record_of_entry`).
pub open spec fn record_from_resources(rec: RecordView, rs: Seq<ResourceView>, n: int, path: Seq<char>) -> bool {
    exists|ri: int, ei: int|
        #![trigger rs[ri].entries[ei]]
        0 <= ri < n && 0 <= ei < rs[ri].entries.len() && record_of_entry(
            rec,
            rs[ri].metadata.domain,
            rs[ri].entries[ei],
            path,
        )
}

/// Every record a file contributes comes from an entry of one of its
/// resources, with that entry's key and domain, and carries a placeholder
/// signature exactly when that entry has a singular text.
pub proof fn lemma_file_records_signatures(
    path: Seq<char>,
    rs: Seq<ResourceView>,
    sigs: Seq<Seq<Seq<Seq<char>>>>,
    n: int,
)
    requires
        0 <= n <= rs.len(),
    ensures
        forall|k: int|
            0 <= k < file_records(path, rs, sigs, n).len() ==> record_from_resources(
                #[trigger] file_records(path, rs, sigs, n)[k],
                rs,
                n,
                path,
            ),
    decreases n,
{
    if n > 0 {
        lemma_file_records_signatures(path, rs, sigs, n - 1);
        let prev = file_records(path, rs, sigs, n - 1);
        let all = file_records(path, rs, sigs, n);
        let r = rs[n - 1];
        let tail = match langid_canonical(r.metadata.language) {
            Some(l) => resource_records(path, r, l, sigs[n - 1], r.entries.len() as int),
            None => Seq::empty(),
        };
        assert(all == prev + tail);
        if let Some(l) = langid_canonical(r.metadata.language) {
            lemma_resource_records_signatures(path, r, l, sigs[n - 1], r.entries.len() as int);
        }
        assert forall|k: int| 0 <= k < all.len() implies record_from_resources(#[trigger] all[k], rs, n, path) by {
            if k < prev.len() {
                assert(all[k] == prev[k]);
                assert(record_from_resources(prev[k], rs, n - 1, path));
                let (ri, ei) = choose|ri: int, ei: int|
                    #![trigger rs[ri].entries[ei]]
                    0 <= ri < n - 1 && 0 <= ei < rs[ri].entries.len() && record_of_entry(
                        prev[k],
                        rs[ri].metadata.domain,
                        rs[ri].entries[ei],
                        path,
                    );
                assert(record_of_entry(all[k], rs[ri].metadata.domain, rs[ri].entries[ei], path));
            } else {
                let ei = k - prev.len();
                let l = langid_canonical(r.metadata.language)->0;
                assert(langid_canonical(r.metadata.language) is Some);
                assert(tail == resource_records(path, r, l, sigs[n - 1], r.entries.len() as int));
                assert(0 <= ei < r.entries.len());
                assert(all[k] == tail[ei]);
                assert(record_of_entry(all[k], rs[n - 1].metadata.domain, rs[n - 1].entries[ei], path));
            }
        }
    }
}

} // verus!

//! The `diff` command's report: what changed between a source and a target
//! catalog, per language, and its plain-text rendering.

use vstd::prelude::*;
use vstd::string::*;
use crate::model::{PluralCategory, Translation, TranslationView};
use crate::text::{decimal, join, join_strings, strings_view, usize_to_string};

verus! {

broadcast use vstd::string::group_string_axioms;

/// The options of `diff`.
#[derive(Debug, Clone)]
pub struct DiffOptions {
    pub source: String,
    pub target: String,
    pub lang: Option<String>,
    pub json: bool,
    pub output: Option<String>,
    pub strict: bool,
}

/// The debug name of a plural category.
pub open spec fn category_debug(c: PluralCategory) -> Seq<char> {
    match c {
        PluralCategory::Zero => "Zero"@,
        PluralCategory::One => "One"@,
        PluralCategory::Two => "Two"@,
        PluralCategory::Few => "Few"@,
        PluralCategory::Many => "Many"@,
        PluralCategory::Other => "Other"@,
    }
}

fn category_debug_text(c: PluralCategory) -> (r: &'static str)
    ensures
        r@ == category_debug(c),
{
    match c {
        PluralCategory::Zero => "Zero",
        PluralCategory::One => "One",
        PluralCategory::Two => "Two",
        PluralCategory::Few => "Few",
        PluralCategory::Many => "Many",
        PluralCategory::Other => "Other",
    }
}

/// How a value is shown in a diff: a singular value as itself, a plural one
/// as its forms (`Category=text`) separated by ` | `, an empty one as
/// nothing.
pub open spec fn value_text(v: TranslationView) -> Seq<char> {
    match v {
        TranslationView::Empty => Seq::empty(),
        TranslationView::Singular(s) => s,
        TranslationView::Plural(_, forms) => join(
            forms.map_values(|f: (PluralCategory, Seq<char>)| category_debug(f.0) + "="@ + f.1),
            " | "@,
        ),
    }
}

pub fn translation_as_text(value: &Translation) -> (r: String)
    ensures
        r@ == value_text(value@),
{
    match value {
        Translation::Empty => String::new(),
        Translation::Singular(v) => v.clone(),
        Translation::Plural(p) => {
            let ghost fv = crate::model::forms_view(p.forms@);
            let mut parts: Vec<String> = Vec::new();
            let mut i: usize = 0;
            while i < p.forms.len()
                invariant
                    i <= p.forms@.len(),
                    fv == crate::model::forms_view(p.forms@),
                    parts@.len() == i,
                    forall|q: int| 0 <= q < i ==> #[trigger] parts@[q]@ == category_debug(fv[q].0) + "="@ + fv[q].1,
                decreases p.forms.len() - i,
            {
                let mut s = String::from_str(category_debug_text(p.forms[i].0));
                s.append("=");
                s.append(p.forms[i].1.as_str());
                parts.push(s);
                i = i + 1;
            }
            assert(strings_view(parts@) =~= fv.map_values(
                |f: (PluralCategory, Seq<char>)| category_debug(f.0) + "="@ + f.1,
            ));
            join_strings(&parts, " | ")
        },
    }
}

/// The totals of a diff.
#[derive(Debug, Clone, Copy)]
pub struct DiffSummary {
    pub languages: usize,
    pub added: usize,
    pub removed: usize,
    pub changed: usize,
    pub unchanged: usize,
}

/// A key whose value differs: its source and target values.
#[derive(Debug)]
pub struct ChangedItem {
    pub key: String,
    pub source: Translation,
    pub target: Translation,
}

/// The differences of one language.
#[derive(Debug)]
pub struct LanguageDiff {
    pub language: String,
    pub added: Vec<String>,
    pub removed: Vec<String>,
    pub changed: Vec<ChangedItem>,
    pub unchanged: usize,
}

/// A diff: totals, then each language.
#[derive(Debug)]
pub struct DiffReport {
    pub summary: DiffSummary,
    pub languages: Vec<LanguageDiff>,
}

pub open spec fn changed_text(c: ChangedItem) -> Seq<char> {
    c.key@ + " ('"@ + value_text(c.target@) + "' -> '"@ + value_text(c.source@) + "')"@
}

/// The lines of one language in a plain report.
pub open spec fn language_lines(l: LanguageDiff) -> Seq<Seq<char>> {
    seq![
        "\nLanguage: "@ + l.language@,
        "  added: "@ + decimal(l.added@.len()),
        "  removed: "@ + decimal(l.removed@.len()),
        "  changed: "@ + decimal(l.changed@.len()),
        "  unchanged: "@ + decimal(l.unchanged as nat),
    ] + (if l.added@.len() > 0 {
        seq!["  added keys: "@ + join(strings_view(l.added@), ", "@)]
    } else {
        Seq::empty()
    }) + (if l.removed@.len() > 0 {
        seq!["  removed keys: "@ + join(strings_view(l.removed@), ", "@)]
    } else {
        Seq::empty()
    }) + (if l.changed@.len() > 0 {
        seq![
            "  changed keys: "@ + join(
                l.changed@.map_values(|c: ChangedItem| changed_text(c)),
                ", "@,
            ),
        ]
    } else {
        Seq::empty()
    })
}

pub open spec fn languages_lines(ls: Seq<LanguageDiff>) -> Seq<Seq<char>>
    decreases ls.len(),
{
    if ls.len() == 0 {
        Seq::empty()
    } else {
        languages_lines(ls.drop_last()) + language_lines(ls.last())
    }
}

/// The lines of a plain report: a header, the totals, then each language.
pub open spec fn plain_lines(r: DiffReport) -> Seq<Seq<char>> {
    seq![
        "=== Diff ==="@,
        "Languages: "@ + decimal(r.summary.languages as nat),
        "Totals: added="@ + decimal(r.summary.added as nat) + ", removed="@ + decimal(
            r.summary.removed as nat,
        ) + ", changed="@ + decimal(r.summary.changed as nat) + ", unchanged="@ + decimal(
            r.summary.unchanged as nat,
        ),
    ] + languages_lines(r.languages@)
}

fn labeled(label: &str, n: usize) -> (r: String)
    ensures
        r@ == label@ + decimal(n as nat),
{
    let mut s = String::from_str(label);
    let d = usize_to_string(n);
    s.append(d.as_str());
    s
}

fn push_line(lines: &mut Vec<String>, line: String)
    ensures
        strings_view(final(lines)@) == strings_view(old(lines)@).push(line@),
{
    lines.push(line);
    assert(strings_view(lines@) =~= strings_view(old(lines)@).push(line@));
}

fn add_language_lines(lines: &mut Vec<String>, l: &LanguageDiff)
    ensures
        strings_view(final(lines)@) == strings_view(old(lines)@) + language_lines(*l),
{
    let ghost start = strings_view(lines@);
    let mut head = String::from_str("\nLanguage: ");
    head.append(l.language.as_str());
    push_line(lines, head);
    push_line(lines, labeled("  added: ", l.added.len()));
    push_line(lines, labeled("  removed: ", l.removed.len()));
    push_line(lines, labeled("  changed: ", l.changed.len()));
    push_line(lines, labeled("  unchanged: ", l.unchanged));
    let ghost after_counts = strings_view(lines@);
    if l.added.len() > 0 {
        let mut s = String::from_str("  added keys: ");
        let j = join_strings(&l.added, ", ");
        s.append(j.as_str());
        push_line(lines, s);
    }
    if l.removed.len() > 0 {
        let mut s = String::from_str("  removed keys: ");
        let j = join_strings(&l.removed, ", ");
        s.append(j.as_str());
        push_line(lines, s);
    }
    if l.changed.len() > 0 {
        let mut parts: Vec<String> = Vec::new();
        let mut i: usize = 0;
        while i < l.changed.len()
            invariant
                i <= l.changed@.len(),
                parts@.len() == i,
                forall|q: int| 0 <= q < i ==> #[trigger] parts@[q]@ == changed_text(l.changed@[q]),
            decreases l.changed.len() - i,
        {
            let c = &l.changed[i];
            let mut s = c.key.clone();
            s.append(" ('");
            let t = translation_as_text(&c.target);
            s.append(t.as_str());
            s.append("' -> '");
            let so = translation_as_text(&c.source);
            s.append(so.as_str());
            s.append("')");
            parts.push(s);
            i = i + 1;
        }
        assert(strings_view(parts@) =~= l.changed@.map_values(|c: ChangedItem| changed_text(c)));
        let mut s = String::from_str("  changed keys: ");
        let j = join_strings(&parts, ", ");
        s.append(j.as_str());
        push_line(lines, s);
    }
    assert(strings_view(lines@) =~= start + language_lines(*l));
}

/// The plain lines of a report.
pub fn plain_report_lines(report: &DiffReport) -> (r: Vec<String>)
    ensures
        strings_view(r@) == plain_lines(*report),
{
    let mut lines: Vec<String> = Vec::new();
    push_line(&mut lines, String::from_str("=== Diff ==="));
    push_line(&mut lines, labeled("Languages: ", report.summary.languages));
    let mut totals = labeled("Totals: added=", report.summary.added);
    let a = labeled(", removed=", report.summary.removed);
    totals.append(a.as_str());
    let b = labeled(", changed=", report.summary.changed);
    totals.append(b.as_str());
    let c = labeled(", unchanged=", report.summary.unchanged);
    totals.append(c.as_str());
    assert(totals@ =~= "Totals: added="@ + decimal(report.summary.added as nat) + ", removed="@ + decimal(
        report.summary.removed as nat,
    ) + ", changed="@ + decimal(report.summary.changed as nat) + ", unchanged="@ + decimal(
        report.summary.unchanged as nat,
    ));
    push_line(&mut lines, totals);
    let ghost head = strings_view(lines@);
    assert(head =~= plain_lines(*report).take(3));
    let mut i: usize = 0;
    assert(report.languages@.take(0) =~= Seq::<LanguageDiff>::empty());
    while i < report.languages.len()
        invariant
            i <= report.languages@.len(),
            strings_view(lines@) == head + languages_lines(report.languages@.take(i as int)),
        decreases report.languages.len() - i,
    {
        assert(report.languages@.take(i + 1).drop_last() =~= report.languages@.take(i as int));
        add_language_lines(&mut lines, &report.languages[i]);
        i = i + 1;
    }
    assert(report.languages@.take(i as int) =~= report.languages@);
    assert(plain_lines(*report) =~= plain_lines(*report).take(3) + languages_lines(report.languages@));
    lines
}

/// The plain rendering of a report: its lines joined by newlines.
pub fn render_plain(report: &DiffReport) -> (r: String)
    ensures
        r@ == join(plain_lines(*report), "\n"@),
{
    let lines = plain_report_lines(report);
    join_strings(&lines, "\n")
}

/// The line of a plain report that lists a language's removed keys.
pub open spec fn removed_keys_line(l: LanguageDiff) -> Seq<char> {
    "  removed keys: "@ + join(strings_view(l.removed@), ", "@)
}

proof fn lemma_not_prefix(s: Seq<char>, p: Seq<char>, idx: int)
    requires
        0 <= idx < p.len(),
        idx < s.len(),
        s[idx] != p[idx],
    ensures
        !crate::text::starts_with(s, p),
{
    if p.len() <= s.len() && s.take(p.len() as int) == p {
        assert(s.take(p.len() as int)[idx] == s[idx]);
    }
}

/// The removed keys of a language are listed on one line, exactly: the line
/// is there when some key was removed, it names that language's removed keys
/// (in order, separated by `, `), and no other line of the language's block
/// starts as it does.
pub proof fn lemma_language_lines_list_removed(l: LanguageDiff)
    ensures
        l.removed@.len() > 0 ==> language_lines(l).contains(removed_keys_line(l)),
        forall|i: int|
            0 <= i < language_lines(l).len() && crate::text::starts_with(
                #[trigger] language_lines(l)[i],
                "  removed keys: "@,
            ) ==> language_lines(l)[i] == removed_keys_line(l) && l.removed@.len() > 0,
{
    reveal_strlit("\nLanguage: ");
    reveal_strlit("  added: ");
    reveal_strlit("  removed: ");
    reveal_strlit("  changed: ");
    reveal_strlit("  unchanged: ");
    reveal_strlit("  added keys: ");
    reveal_strlit("  removed keys: ");
    reveal_strlit("  changed keys: ");
    let ls = language_lines(l);
    let p = "  removed keys: "@;
    let head = seq![
        "\nLanguage: "@ + l.language@,
        "  added: "@ + decimal(l.added@.len()),
        "  removed: "@ + decimal(l.removed@.len()),
        "  changed: "@ + decimal(l.changed@.len()),
        "  unchanged: "@ + decimal(l.unchanged as nat),
    ];
    let a: Seq<Seq<char>> = if l.added@.len() > 0 {
        seq!["  added keys: "@ + join(strings_view(l.added@), ", "@)]
    } else {
        Seq::empty()
    };
    let r: Seq<Seq<char>> = if l.removed@.len() > 0 {
        seq![removed_keys_line(l)]
    } else {
        Seq::empty()
    };
    let c: Seq<Seq<char>> = if l.changed@.len() > 0 {
        seq![
            "  changed keys: "@ + join(
                l.changed@.map_values(|c: ChangedItem| changed_text(c)),
                ", "@,
            ),
        ]
    } else {
        Seq::empty()
    };
    assert(ls == head + a + r + c);
    if l.removed@.len() > 0 {
        assert(ls[5 + a.len() as int] == removed_keys_line(l));
    }
    assert forall|i: int|
        0 <= i < ls.len() && crate::text::starts_with(#[trigger] ls[i], p) implies ls[i]
        == removed_keys_line(l) && l.removed@.len() > 0 by {
        let x = ls[i];
        if i == 0 {
            lemma_not_prefix(x, p, 0);
        } else if i == 1 || i == 3 || i == 4 {
            lemma_not_prefix(x, p, 2);
        } else if i == 2 {
            lemma_not_prefix(x, p, 9);
        } else if i == 5 && a.len() == 1 {
            lemma_not_prefix(x, p, 2);
        } else if i == 5 + a.len() && r.len() == 1 {
        } else {
            assert(c.len() == 1 && x == c[0]);
            lemma_not_prefix(x, p, 2);
        }
    }
}

/// A plain report lists, for each of its languages with removed keys, that
/// language's removed keys.
pub proof fn lemma_plain_lines_list_removed(r: DiffReport, k: int)
    requires
        0 <= k < r.languages@.len(),
        r.languages@[k].removed@.len() > 0,
    ensures
        plain_lines(r).contains(removed_keys_line(r.languages@[k])),
{
    lemma_languages_lines_contain(r.languages@, r.languages@.len() as int, k);
    assert(r.languages@.take(r.languages@.len() as int) =~= r.languages@);
    let ls = languages_lines(r.languages@);
    let line = removed_keys_line(r.languages@[k]);
    let j = choose|j: int| 0 <= j < ls.len() && ls[j] == line;
    assert(plain_lines(r)[3 + j] == line);
}

proof fn lemma_languages_lines_contain(ls: Seq<LanguageDiff>, n: int, k: int)
    requires
        0 <= k < n <= ls.len(),
        ls[k].removed@.len() > 0,
    ensures
        languages_lines(ls.take(n)).contains(removed_keys_line(ls[k])),
    decreases n,
{
    let t = ls.take(n);
    assert(t.drop_last() =~= ls.take(n - 1));
    assert(t.last() == ls[n - 1]);
    let prev = languages_lines(ls.take(n - 1));
    let line = removed_keys_line(ls[k]);
    if k < n - 1 {
        lemma_languages_lines_contain(ls, n - 1, k);
        let j = choose|j: int| 0 <= j < prev.len() && prev[j] == line;
        assert(languages_lines(t)[j] == line);
    } else {
        lemma_language_lines_list_removed(ls[k]);
        let cur = language_lines(ls[k]);
        let j = choose|j: int| 0 <= j < cur.len() && cur[j] == line;
        assert(languages_lines(t)[prev.len() + j] == line);
    }
}

} // verus!

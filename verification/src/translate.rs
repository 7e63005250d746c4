//! The `translate` command: which entries become translation jobs, how a job
//! is shown and asked for, how a model's answer is read back, and how the
//! results land in the target catalog.

use vstd::prelude::*;
use vstd::string::*;
use crate::languages::{
    find_entry_by_language_identity, identity_lookup, identity_match, resource_identity_position,
};
use crate::model::{
    added, copy_opt_string, copy_entries, entries_view, find_key, key_position, languages_of,
    lemma_find_key_bounds, opt_seq, pairs_view, status_named, unknown_status_message, with_entry,
    Codec, Entry, EntryStatus, EntryView,
    Metadata, MetadataView, Resource, ResourceView, Translation, TranslationView,
};
use crate::paths::{extension_of, path_extension};
use crate::text::{
    chars_of, decimal, ends_with, eq_ignore_case, eq_ignore_case_str, owned, push_char,
    starts_with, starts_with_str, ends_with_str, string_from_chars, sub_chars, trim, trim_chars,
    trim_start, trim_start_chars, usize_to_string, split_on, split_str, replace_char,
    replace_chars, strings_view,
};

verus! {

broadcast use vstd::string::group_string_axioms;

/// One key to translate into one language.
#[derive(Debug, Clone)]
pub struct TranslationJob {
    pub key: String,
    pub source_lang: String,
    pub target_lang: String,
    pub source_value: String,
    pub source_comment: Option<String>,
    pub existing_comment: Option<String>,
}

/// The counts of a translate run.
#[derive(Debug, Clone, Copy, PartialEq, Eq, Structural)]
pub struct TranslationSummary {
    pub total_entries: usize,
    pub queued: usize,
    pub translated: usize,
    pub skipped_do_not_translate: usize,
    pub skipped_plural: usize,
    pub skipped_status: usize,
    pub skipped_empty_source: usize,
    pub failed: usize,
}

/// What is sent to the model for one job.
#[derive(Debug, Clone)]
pub struct BackendRequest {
    pub key: String,
    pub source_lang: String,
    pub target_lang: String,
    pub source_value: String,
    pub source_comment: Option<String>,
}

/// A labelled value of a run's summary.
#[derive(Debug, Clone)]
pub struct SummaryRow {
    pub label: String,
    pub value: String,
}

/// The state of one item on the progress dashboard.
#[derive(Debug, Clone, Copy, PartialEq, Eq, Structural)]
pub enum DashboardItemStatus {
    Queued,
    Running,
    Succeeded,
    Failed,
    Skipped,
}

/// One item on the progress dashboard.
#[derive(Debug, Clone)]
pub struct DashboardItem {
    pub id: String,
    pub title: String,
    pub subtitle: String,
    pub status: DashboardItemStatus,
    pub source_text: Option<String>,
    pub note_text: Option<String>,
}

/// How a translate run reports progress.
#[derive(Debug, Clone, Copy, PartialEq, Eq, Structural)]
pub enum UiMode {
    Auto,
    Plain,
    Tui,
}

/// What a translate run reports when it is done.
#[derive(Debug, Clone)]
pub struct TranslateOutcome {
    pub translated: usize,
    pub skipped: usize,
    pub failed: usize,
    pub output_path: Option<String>,
}

/// The options of the `translate` command.
#[derive(Debug, Clone)]
pub struct TranslateOptions {
    pub source: Option<String>,
    pub target: Option<String>,
    pub output: Option<String>,
    pub source_lang: Option<String>,
    pub target_langs: Vec<String>,
    pub status: Option<String>,
    pub provider: Option<String>,
    pub model: Option<String>,
    pub concurrency: Option<usize>,
    pub config: Option<String>,
    pub use_tolgee: bool,
    pub tolgee_config: Option<String>,
    pub tolgee_namespaces: Vec<String>,
    pub dry_run: bool,
    pub strict: bool,
    pub ui_mode: UiMode,
}

/// The identifier of a job: `<target language>:<key>`.
pub open spec fn job_id(job: TranslationJob) -> Seq<char> {
    job.target_lang@ + ":"@ + job.key@
}

pub fn translation_job_id(job: &TranslationJob) -> (r: String)
    ensures
        r@ == job_id(*job),
{
    let mut r = job.target_lang.clone();
    r.append(":");
    r.append(job.key.as_str());
    r
}

/// The note shown for a job: the comment of the existing target entry, else
/// the comment of the source entry.
pub open spec fn job_note(job: TranslationJob) -> Option<Seq<char>> {
    match opt_seq(job.existing_comment) {
        Some(c) => Some(c),
        None => opt_seq(job.source_comment),
    }
}

pub fn copy_opt(s: &Option<String>) -> (r: Option<String>)
    ensures
        opt_seq(r) == opt_seq(*s),
{
    match s {
        Some(x) => Some(x.clone()),
        None => None,
    }
}

/// The dashboard item of a queued job.
pub fn translate_dashboard_item(job: &TranslationJob) -> (r: DashboardItem)
    ensures
        r.id@ == job_id(*job),
        r.title@ == job.key@,
        r.subtitle@ == job.target_lang@,
        r.status == DashboardItemStatus::Queued,
        opt_seq(r.source_text) == Some(job.source_value@),
        opt_seq(r.note_text) == job_note(*job),
{
    let note = match &job.existing_comment {
        Some(c) => Some(c.clone()),
        None => copy_opt(&job.source_comment),
    };
    DashboardItem {
        id: translation_job_id(job),
        title: job.key.clone(),
        subtitle: job.target_lang.clone(),
        status: DashboardItemStatus::Queued,
        source_text: Some(job.source_value.clone()),
        note_text: note,
    }
}

/// The number of skipped candidates, over all reasons.
pub open spec fn skipped_total(s: TranslationSummary) -> int {
    s.skipped_plural + s.skipped_do_not_translate + s.skipped_status + s.skipped_empty_source
}

pub fn count_skipped(summary: &TranslationSummary) -> (r: usize)
    requires
        skipped_total(*summary) <= usize::MAX,
    ensures
        r == skipped_total(*summary),
{
    summary.skipped_plural + summary.skipped_do_not_translate + summary.skipped_status
        + summary.skipped_empty_source
}

pub open spec fn row_view(r: SummaryRow) -> (Seq<char>, Seq<char>) {
    (r.label@, r.value@)
}

/// The rows of a run's summary, in the order the dashboard shows them.
pub open spec fn summary_rows(s: TranslationSummary) -> Seq<(Seq<char>, Seq<char>)> {
    seq![
        ("Total candidates"@, decimal(s.total_entries as nat)),
        ("Queued"@, decimal(s.queued as nat)),
        ("Translated"@, decimal(s.translated as nat)),
        ("Skipped total"@, decimal(skipped_total(s) as nat)),
        ("Skipped plural"@, decimal(s.skipped_plural as nat)),
        ("Skipped do_not_translate"@, decimal(s.skipped_do_not_translate as nat)),
        ("Skipped status"@, decimal(s.skipped_status as nat)),
        ("Skipped empty source"@, decimal(s.skipped_empty_source as nat)),
        ("Failed"@, decimal(s.failed as nat)),
    ]
}

fn row(label: &str, value: String) -> (r: SummaryRow)
    ensures
        r.label@ == label@,
        r.value@ == value@,
{
    SummaryRow { label: owned(label), value }
}

pub fn translation_summary_rows(summary: &TranslationSummary) -> (r: Vec<SummaryRow>)
    requires
        skipped_total(*summary) <= usize::MAX,
    ensures
        r@.map_values(|x: SummaryRow| row_view(x)) == summary_rows(*summary),
{
    let mut v: Vec<SummaryRow> = Vec::new();
    v.push(row("Total candidates", usize_to_string(summary.total_entries)));
    v.push(row("Queued", usize_to_string(summary.queued)));
    v.push(row("Translated", usize_to_string(summary.translated)));
    v.push(row("Skipped total", usize_to_string(count_skipped(summary))));
    v.push(row("Skipped plural", usize_to_string(summary.skipped_plural)));
    v.push(row("Skipped do_not_translate", usize_to_string(summary.skipped_do_not_translate)));
    v.push(row("Skipped status", usize_to_string(summary.skipped_status)));
    v.push(row("Skipped empty source", usize_to_string(summary.skipped_empty_source)));
    v.push(row("Failed", usize_to_string(summary.failed)));
    assert(v@.map_values(|x: SummaryRow| row_view(x)) =~= summary_rows(*summary));
    v
}

/// The lines a plain run prints to sum itself up.
pub open spec fn summary_text(s: TranslationSummary) -> Seq<Seq<char>> {
    seq![
        "Total candidate translations: "@ + decimal(s.total_entries as nat),
        "Queued for translation: "@ + decimal(s.queued as nat),
        "Translated: "@ + decimal(s.translated as nat),
        "Skipped (plural): "@ + decimal(s.skipped_plural as nat),
        "Skipped (do_not_translate): "@ + decimal(s.skipped_do_not_translate as nat),
        "Skipped (status): "@ + decimal(s.skipped_status as nat),
        "Skipped (empty source): "@ + decimal(s.skipped_empty_source as nat),
        "Failed: "@ + decimal(s.failed as nat),
    ]
}

fn labeled_count(label: &str, n: usize) -> (r: String)
    ensures
        r@ == label@ + decimal(n as nat),
{
    let mut s = owned(label);
    let d = usize_to_string(n);
    s.append(d.as_str());
    s
}

pub fn summary_lines(summary: &TranslationSummary) -> (r: Vec<String>)
    ensures
        strings_view(r@) == summary_text(*summary),
{
    let mut v: Vec<String> = Vec::new();
    v.push(labeled_count("Total candidate translations: ", summary.total_entries));
    v.push(labeled_count("Queued for translation: ", summary.queued));
    v.push(labeled_count("Translated: ", summary.translated));
    v.push(labeled_count("Skipped (plural): ", summary.skipped_plural));
    v.push(labeled_count("Skipped (do_not_translate): ", summary.skipped_do_not_translate));
    v.push(labeled_count("Skipped (status): ", summary.skipped_status));
    v.push(labeled_count("Skipped (empty source): ", summary.skipped_empty_source));
    v.push(labeled_count("Failed: ", summary.failed));
    assert(strings_view(v@) =~= summary_text(*summary));
    v
}

/// What one character becomes when a value is shown on one line: a backslash
/// is doubled, and newline, carriage return and tab are written as `\n`, `\r`
/// and `\t`.
pub open spec fn escape_char(c: char) -> Seq<char> {
    if c == '\\' {
        seq!['\\', '\\']
    } else if c == '\n' {
        seq!['\\', 'n']
    } else if c == '\r' {
        seq!['\\', 'r']
    } else if c == '\t' {
        seq!['\\', 't']
    } else {
        seq![c]
    }
}

/// A value written on one line.
pub open spec fn inline_value(s: Seq<char>) -> Seq<char>
    decreases s.len(),
{
    if s.len() == 0 {
        Seq::empty()
    } else {
        inline_value(s.drop_last()) + escape_char(s.last())
    }
}

pub fn format_inline_value(value: &str) -> (r: String)
    ensures
        r@ == inline_value(value@),
{
    let v = chars_of(value);
    let mut r = String::new();
    let mut i: usize = 0;
    while i < v.len()
        invariant
            i <= v@.len(),
            v@ == value@,
            r@ == inline_value(v@.take(i as int)),
        decreases v.len() - i,
    {
        let c = v[i];
        proof {
            assert(v@.take(i + 1).drop_last() =~= v@.take(i as int));
        }
        if c == '\\' {
            push_char(&mut r, '\\');
            push_char(&mut r, '\\');
        } else if c == '\n' {
            push_char(&mut r, '\\');
            push_char(&mut r, 'n');
        } else if c == '\r' {
            push_char(&mut r, '\\');
            push_char(&mut r, 'r');
        } else if c == '\t' {
            push_char(&mut r, '\\');
            push_char(&mut r, 't');
        } else {
            push_char(&mut r, c);
        }
        i = i + 1;
        assert(r@ =~= inline_value(v@.take(i as int)));
    }
    assert(v@.take(v@.len() as int) =~= v@);
    r
}

/// The prompt sent to the model for one request.
pub open spec fn prompt_text(req: BackendRequest) -> Seq<char> {
    let head = "Translate the following localization value from "@ + req.source_lang@ + " to "@
        + req.target_lang@ + ".\nKey: "@ + req.key@ + "\nSource value:\n"@ + req.source_value@
        + "\n"@;
    let comment = match opt_seq(req.source_comment) {
        Some(c) => "\nComment:\n"@ + c + "\n"@,
        None => Seq::empty(),
    };
    head + comment
        + "\nReturn JSON only in this exact shape: {\"translation\":\"...\"}. Do not wrap in markdown fences unless necessary."@
}

pub fn build_prompt(request: &BackendRequest) -> (r: String)
    ensures
        r@ == prompt_text(*request),
{
    let mut p = String::from_str("Translate the following localization value from ");
    p.append(request.source_lang.as_str());
    p.append(" to ");
    p.append(request.target_lang.as_str());
    p.append(".\nKey: ");
    p.append(request.key.as_str());
    p.append("\nSource value:\n");
    p.append(request.source_value.as_str());
    p.append("\n");
    if let Some(comment) = &request.source_comment {
        p.append("\nComment:\n");
        p.append(comment.as_str());
        push_char(&mut p, '\n');
        assert("\n"@ =~= seq!['\n']) by {
            reveal_strlit("\n");
        }
    }
    p.append(
        "\nReturn JSON only in this exact shape: {\"translation\":\"...\"}. Do not wrap in markdown fences unless necessary.",
    );
    p
}

/// A model's translation is refused when it is blank.
pub fn non_blank_model_translation(translation: String) -> (r: Result<String, String>)
    ensures
        trim(translation@).len() == 0 ==> (r matches Err(e) && e@
            == "Model returned a blank translation value"@),
        trim(translation@).len() > 0 ==> (r matches Ok(t) && t@ == translation@),
{
    let v = chars_of(translation.as_str());
    let t = trim_chars(v.as_slice());
    if t.len() == 0 {
        return Err(String::from_str("Model returned a blank translation value"));
    }
    Ok(translation)
}

/// The body of a reply fenced as a Markdown code block: the text after an
/// opening "```json" (or "```") and before a closing "```", trimmed.
pub open spec fn json_body(text: Seq<char>) -> Option<Seq<char>> {
    let fenced = if starts_with(text, "```json"@) {
        Some(text.skip("```json"@.len() as int))
    } else if starts_with(text, "```"@) {
        Some(text.skip("```"@.len() as int))
    } else {
        None
    };
    match fenced {
        Some(f) => {
            let t = trim_start(f);
            if ends_with(t, "```"@) {
                Some(trim(t.take(t.len() - "```"@.len())))
            } else {
                None
            }
        },
        None => None,
    }
}

pub fn extract_json_body(text: &str) -> (r: Option<String>)
    ensures
        match r {
            Some(b) => json_body(text@) == Some(b@),
            None => json_body(text@) is None,
        },
{
    proof {
        reveal_strlit("```json");
        reveal_strlit("```");
    }
    let v = chars_of(text);
    let f = if starts_with_str(v.as_slice(), "```json") {
        sub_chars(v.as_slice(), 7, v.len())
    } else if starts_with_str(v.as_slice(), "```") {
        sub_chars(v.as_slice(), 3, v.len())
    } else {
        return None;
    };
    let t = trim_start_chars(f.as_slice());
    if !ends_with_str(t.as_slice(), "```") {
        return None;
    }
    let inner = sub_chars(t.as_slice(), 0, t.len() - 3);
    let b = trim_chars(inner.as_slice());
    Some(string_from_chars(b.as_slice()))
}

/// The payload a model replies with: `{"translation": "..."}`.
pub struct ModelTranslationPayload {
    pub translation: String,
}

/// The translation a payload parse gave, if any.
pub open spec fn payload_text(p: Option<ModelTranslationPayload>) -> Option<Seq<char>> {
    match p {
        Some(x) => Some(x.translation@),
        None => None,
    }
}

pub open spec fn blank_checked(t: Seq<char>) -> Result<Seq<char>, Seq<char>> {
    if trim(t).len() == 0 {
        Err("Model returned a blank translation value"@)
    } else {
        Ok(t)
    }
}

/// Where a reply's payload is read from: the trimmed reply, then the body of
/// its Markdown fence, if it has one; a blank reply is refused.
pub open spec fn reply_sources(text: Seq<char>) -> Result<(Seq<char>, Option<Seq<char>>), Seq<char>> {
    let t = trim(text);
    if t.len() == 0 {
        Err("Model returned an empty translation"@)
    } else {
        Ok((t, json_body(t)))
    }
}

/// How a reply is read once its payload was parsed: the payload of the
/// trimmed reply (`direct`), else that of its fenced body (`fenced`), must
/// hold a translation that is not blank; with neither, the reply is refused.
pub open spec fn reply_from_payloads(
    trimmed: Seq<char>,
    direct: Option<Seq<char>>,
    fenced: Option<Seq<char>>,
) -> Result<Seq<char>, Seq<char>> {
    match direct {
        Some(x) => blank_checked(x),
        None => match fenced {
            Some(x) => blank_checked(x),
            None => Err("Model response was not valid translation JSON: "@ + trimmed),
        },
    }
}

pub open spec fn result_seq(r: Result<String, String>) -> Result<Seq<char>, Seq<char>> {
    match r {
        Ok(s) => Ok(s@),
        Err(e) => Err(e@),
    }
}

/// The texts a model's reply is parsed from, in order: the trimmed reply and
/// the body of its fence. A blank reply is refused.
pub fn reply_payload_sources(text: &str) -> (r: Result<(String, Option<String>), String>)
    ensures
        match r {
            Ok((t, b)) => reply_sources(text@) == Ok::<(Seq<char>, Option<Seq<char>>), Seq<char>>(
                (t@, crate::model::opt_seq(b)),
            ),
            Err(e) => reply_sources(text@) == Err::<(Seq<char>, Option<Seq<char>>), Seq<char>>(e@),
        },
{
    let v = chars_of(text);
    let tv = trim_chars(v.as_slice());
    if tv.len() == 0 {
        return Err(String::from_str("Model returned an empty translation"));
    }
    let trimmed = string_from_chars(tv.as_slice());
    let body = extract_json_body(trimmed.as_str());
    Ok((trimmed, body))
}

/// Reads a model's reply from what parsing its payload gave: for the trimmed
/// reply (`direct`), and for the body of its fence (`fenced`, looked at only
/// when `direct` is `None`).
pub fn read_model_reply(
    trimmed: &str,
    direct: Option<ModelTranslationPayload>,
    fenced: Option<ModelTranslationPayload>,
) -> (r: Result<String, String>)
    ensures
        result_seq(r) == reply_from_payloads(trimmed@, payload_text(direct), payload_text(fenced)),
{
    if let Some(p) = direct {
        return non_blank_model_translation(p.translation);
    }
    if let Some(p) = fenced {
        return non_blank_model_translation(p.translation);
    }
    let mut e = String::from_str("Model response was not valid translation JSON: ");
    e.append(trimmed);
    Err(e)
}

/// An output path keeps explicit entry states when it is an `.xcstrings` file.
pub open spec fn keeps_explicit_status(path: Seq<char>) -> bool {
    match path_extension(path) {
        Some(e) => eq_ignore_case(e, "xcstrings"@),
        None => false,
    }
}

pub fn target_supports_explicit_status(path: &str) -> (r: bool)
    ensures
        r == keeps_explicit_status(path@),
{
    match extension_of(path) {
        Some(e) => {
            let v = chars_of(e.as_str());
            eq_ignore_case_str(v.as_slice(), "xcstrings")
        },
        None => false,
    }
}

/// The one target language, when exactly one is requested.
pub fn single_output_language(target_langs: &[String]) -> (r: Option<&str>)
    ensures
        target_langs@.len() == 1 ==> (r matches Some(l) && l@ == target_langs@[0]@),
        target_langs@.len() != 1 ==> r is None,
{
    if target_langs.len() == 1 {
        Some(target_langs[0].as_str())
    } else {
        None
    }
}

/// A job's contents.
pub struct JobView {
    pub key: Seq<char>,
    pub source_lang: Seq<char>,
    pub target_lang: Seq<char>,
    pub source_value: Seq<char>,
    pub source_comment: Option<Seq<char>>,
    pub existing_comment: Option<Seq<char>>,
}

impl View for TranslationJob {
    type V = JobView;

    open spec fn view(&self) -> JobView {
        JobView {
            key: self.key@,
            source_lang: self.source_lang@,
            target_lang: self.target_lang@,
            source_value: self.source_value@,
            source_comment: opt_seq(self.source_comment),
            existing_comment: opt_seq(self.existing_comment),
        }
    }
}

pub open spec fn jobs_view(v: Seq<TranslationJob>) -> Seq<JobView> {
    v.map_values(|j: TranslationJob| j@)
}

/// What becomes of one source entry for one target language.
pub enum Disposition {
    DoNotTranslate,
    Plural,
    EmptySource,
    Status,
    Queued(JobView),
}

/// The state an existing target entry counts as: its own state when the
/// target keeps explicit states; else `New` while it has no text, and
/// `Translated` once it has.
pub open spec fn target_state(e: EntryView, explicit: bool) -> EntryStatus {
    if explicit {
        e.status
    } else {
        match e.value {
            TranslationView::Empty => EntryStatus::New,
            TranslationView::Singular(t) => if trim(t).len() == 0 {
                EntryStatus::New
            } else {
                EntryStatus::Translated
            },
            TranslationView::Plural(_, _) => EntryStatus::Translated,
        }
    }
}

pub fn effective_target_status(entry: &Entry, explicit_target_status: bool) -> (r: EntryStatus)
    ensures
        r == target_state(entry@, explicit_target_status),
        explicit_target_status ==> r == entry.status,
{
    if explicit_target_status {
        return entry.status;
    }
    match &entry.value {
        Translation::Empty => EntryStatus::New,
        Translation::Singular(text) => {
            let v = chars_of(text.as_str());
            if trim_chars(v.as_slice()).len() == 0 {
                EntryStatus::New
            } else {
                EntryStatus::Translated
            }
        },
        Translation::Plural(_) => EntryStatus::Translated,
    }
}

/// The disposition of source entry `e` for target language `lang`: entries
/// marked do-not-translate, plural entries and entries without text are
/// skipped; so is an entry whose target counterpart is marked
/// do-not-translate, or whose target state is not among `statuses` (a
/// missing target counts as `New`). Every other entry is queued.
pub open spec fn disposition(
    src_lang: Seq<char>,
    e: EntryView,
    tc: Seq<ResourceView>,
    lang: Seq<char>,
    statuses: Seq<EntryStatus>,
    explicit: bool,
) -> Disposition {
    if e.status == EntryStatus::DoNotTranslate {
        Disposition::DoNotTranslate
    } else {
        match e.value {
            TranslationView::Plural(_, _) => Disposition::Plural,
            TranslationView::Empty => Disposition::EmptySource,
            TranslationView::Singular(t) => if trim(t).len() == 0 {
                Disposition::EmptySource
            } else {
                let te = identity_lookup(tc, e.id, lang);
                if te matches Some(x) && x.status == EntryStatus::DoNotTranslate {
                    Disposition::DoNotTranslate
                } else {
                    let st = match te {
                        Some(x) => target_state(x, explicit),
                        None => EntryStatus::New,
                    };
                    if !statuses.contains(st) {
                        Disposition::Status
                    } else {
                        Disposition::Queued(
                            JobView {
                                key: e.id,
                                source_lang: src_lang,
                                target_lang: lang,
                                source_value: t,
                                source_comment: e.comment,
                                existing_comment: match te {
                                    Some(x) => x.comment,
                                    None => None,
                                },
                            },
                        )
                    }
                }
            },
        }
    }
}

/// When the target keeps explicit states, an existing target entry counts as
/// exactly its own state, whatever its text.
pub proof fn lemma_explicit_target_state(e: EntryView)
    ensures
        target_state(e, true) == e.status,
{
}

/// With explicit target states, a source entry with text whose target
/// counterpart exists (and is not marked do-not-translate) is queued exactly
/// when that counterpart's own state is among the requested states; so a
/// `Stale` target is queued under the default `[New, Stale]`.
pub proof fn lemma_explicit_status_decides_queue(
    src_lang: Seq<char>,
    e: EntryView,
    tc: Seq<ResourceView>,
    lang: Seq<char>,
    statuses: Seq<EntryStatus>,
    x: EntryView,
)
    requires
        e.status != EntryStatus::DoNotTranslate,
        e.value matches TranslationView::Singular(t) && trim(t).len() > 0,
        identity_lookup(tc, e.id, lang) == Some(x),
        x.status != EntryStatus::DoNotTranslate,
    ensures
        disposition(src_lang, e, tc, lang, statuses, true) is Queued <==> statuses.contains(x.status),
        !statuses.contains(x.status) ==> disposition(src_lang, e, tc, lang, statuses, true)
            == Disposition::Status,
{
}

/// The dispositions of the first `m` source entries for language `lang`.
pub open spec fn lang_dispositions(
    src: ResourceView,
    tc: Seq<ResourceView>,
    lang: Seq<char>,
    statuses: Seq<EntryStatus>,
    explicit: bool,
    m: int,
) -> Seq<Disposition>
    decreases m,
{
    if m <= 0 {
        Seq::empty()
    } else {
        lang_dispositions(src, tc, lang, statuses, explicit, m - 1).push(
            disposition(src.metadata.language, src.entries[m - 1], tc, lang, statuses, explicit),
        )
    }
}

/// The dispositions of all source entries for the first `n` target
/// languages, language by language.
pub open spec fn run_dispositions(
    src: ResourceView,
    tc: Seq<ResourceView>,
    langs: Seq<Seq<char>>,
    statuses: Seq<EntryStatus>,
    explicit: bool,
    n: int,
) -> Seq<Disposition>
    decreases n,
{
    if n <= 0 {
        Seq::empty()
    } else {
        run_dispositions(src, tc, langs, statuses, explicit, n - 1) + lang_dispositions(
            src,
            tc,
            langs[n - 1],
            statuses,
            explicit,
            src.entries.len() as int,
        )
    }
}

/// The queued jobs among `ds`, in order.
pub open spec fn queued_jobs(ds: Seq<Disposition>) -> Seq<JobView>
    decreases ds.len(),
{
    if ds.len() == 0 {
        Seq::empty()
    } else {
        match ds.last() {
            Disposition::Queued(j) => queued_jobs(ds.drop_last()).push(j),
            _ => queued_jobs(ds.drop_last()),
        }
    }
}

/// How many of `ds` are of the kind `k` (0: do-not-translate, 1: plural,
/// 2: empty source, 3: status, 4: queued).
pub open spec fn kind_of(d: Disposition) -> int {
    match d {
        Disposition::DoNotTranslate => 0,
        Disposition::Plural => 1,
        Disposition::EmptySource => 2,
        Disposition::Status => 3,
        Disposition::Queued(_) => 4,
    }
}

pub open spec fn count_kind(ds: Seq<Disposition>, k: int) -> nat
    decreases ds.len(),
{
    if ds.len() == 0 {
        0
    } else {
        count_kind(ds.drop_last(), k) + if kind_of(ds.last()) == k {
            1nat
        } else {
            0nat
        }
    }
}

/// The summary of a run's dispositions before anything is translated.
pub open spec fn planned_summary(ds: Seq<Disposition>, total: int) -> TranslationSummary {
    TranslationSummary {
        total_entries: total as usize,
        queued: count_kind(ds, 4) as usize,
        translated: 0,
        skipped_do_not_translate: count_kind(ds, 0) as usize,
        skipped_plural: count_kind(ds, 1) as usize,
        skipped_status: count_kind(ds, 3) as usize,
        skipped_empty_source: count_kind(ds, 2) as usize,
        failed: 0,
    }
}

proof fn lemma_lang_dispositions_len(
    src: ResourceView,
    tc: Seq<ResourceView>,
    lang: Seq<char>,
    statuses: Seq<EntryStatus>,
    explicit: bool,
    m: int,
)
    requires
        m >= 0,
    ensures
        lang_dispositions(src, tc, lang, statuses, explicit, m).len() == m,
    decreases m,
{
    if m > 0 {
        lemma_lang_dispositions_len(src, tc, lang, statuses, explicit, m - 1);
    }
}

proof fn lemma_run_dispositions_len(
    src: ResourceView,
    tc: Seq<ResourceView>,
    langs: Seq<Seq<char>>,
    statuses: Seq<EntryStatus>,
    explicit: bool,
    n: int,
)
    requires
        n >= 0,
    ensures
        run_dispositions(src, tc, langs, statuses, explicit, n).len() == n
            * src.entries.len(),
    decreases n,
{
    let e = src.entries.len() as int;
    if n > 0 {
        lemma_run_dispositions_len(src, tc, langs, statuses, explicit, n - 1);
        lemma_lang_dispositions_len(src, tc, langs[n - 1], statuses, explicit, e);
        assert((n - 1) * e + e == n * e) by (nonlinear_arith);
        assert(run_dispositions(src, tc, langs, statuses, explicit, n).len() == (n - 1) * e + e);
    } else {
        assert(n * e == 0) by (nonlinear_arith)
            requires
                n == 0,
        ;
    }
}

fn status_listed(statuses: &[EntryStatus], s: EntryStatus) -> (r: bool)
    ensures
        r == statuses@.contains(s),
{
    let mut i: usize = 0;
    while i < statuses.len()
        invariant
            i <= statuses@.len(),
            forall|j: int| 0 <= j < i ==> statuses@[j] != s,
        decreases statuses.len() - i,
    {
        if statuses[i] == s {
            return true;
        }
        i = i + 1;
    }
    false
}

/// Decides what becomes of one source entry for one target language; the
/// job, when the entry is queued.
fn dispose(
    source_lang: &String,
    entry: &Entry,
    target_codec: &Codec,
    target_lang: &String,
    statuses: &[EntryStatus],
    explicit_target_status: bool,
) -> (r: (u8, Option<TranslationJob>))
    ensures
        r.0 == kind_of(
            disposition(
                source_lang@,
                entry@,
                target_codec@,
                target_lang@,
                statuses@,
                explicit_target_status,
            ),
        ),
        match disposition(
            source_lang@,
            entry@,
            target_codec@,
            target_lang@,
            statuses@,
            explicit_target_status,
        ) {
            Disposition::Queued(j) => r.1 matches Some(job) && job@ == j,
            _ => r.1 is None,
        },
{
    if entry.status == EntryStatus::DoNotTranslate {
        return (0, None);
    }
    let source_text = match &entry.value {
        Translation::Plural(_) => {
            return (1, None);
        },
        Translation::Empty => {
            return (2, None);
        },
        Translation::Singular(text) => {
            let v = chars_of(text.as_str());
            if trim_chars(v.as_slice()).len() == 0 {
                return (2, None);
            }
            text
        },
    };
    let target_entry = find_entry_by_language_identity(
        target_codec,
        entry.id.as_str(),
        target_lang.as_str(),
    );
    if let Some(item) = target_entry {
        if item.status == EntryStatus::DoNotTranslate {
            return (0, None);
        }
    }
    let effective = match target_entry {
        Some(item) => effective_target_status(item, explicit_target_status),
        None => EntryStatus::New,
    };
    if !status_listed(statuses, effective) {
        return (3, None);
    }
    let existing_comment = match target_entry {
        Some(item) => copy_opt_string(&item.comment),
        None => None,
    };
    (
        4,
        Some(
            TranslationJob {
                key: entry.id.clone(),
                source_lang: source_lang.clone(),
                target_lang: target_lang.clone(),
                source_value: source_text.clone(),
                source_comment: copy_opt_string(&entry.comment),
                existing_comment,
            },
        ),
    )
}

/// The jobs of a translate run and its summary: every source entry is
/// considered for every target language, language by language.
pub fn build_jobs(
    source: &Resource,
    target_codec: &Codec,
    target_langs: &[String],
    statuses: &[EntryStatus],
    explicit_target_status: bool,
) -> (r: Result<(Vec<TranslationJob>, TranslationSummary), String>)
    requires
        source@.entries.len() * target_langs@.len() <= usize::MAX,
    ensures
        r matches Ok((jobs, summary)) && ({
            let ds = run_dispositions(
                source@,
                target_codec@,
                crate::text::strings_view(target_langs@),
                statuses@,
                explicit_target_status,
                target_langs@.len() as int,
            );
            &&& jobs_view(jobs@) == queued_jobs(ds)
            &&& summary == planned_summary(
                ds,
                (source@.entries.len() * target_langs@.len()) as int,
            )
        }),
{
    let ghost langs = crate::text::strings_view(target_langs@);
    let ghost src = source@;
    let ghost tc = target_codec@;
    let ghost st = statuses@;
    let ne = source.entries.len();
    let nl = target_langs.len();
    let mut jobs: Vec<TranslationJob> = Vec::new();
    let mut summary = TranslationSummary {
        total_entries: ne * nl,
        queued: 0,
        translated: 0,
        skipped_do_not_translate: 0,
        skipped_plural: 0,
        skipped_status: 0,
        skipped_empty_source: 0,
        failed: 0,
    };
    let mut li: usize = 0;
    while li < nl
        invariant
            ne == source@.entries.len(),
            nl == target_langs@.len(),
            ne * nl <= usize::MAX,
            src == source@,
            tc == target_codec@,
            st == statuses@,
            langs == crate::text::strings_view(target_langs@),
            li <= nl,
            ({
                let ds = run_dispositions(src, tc, langs, st, explicit_target_status, li as int);
                &&& jobs_view(jobs@) == queued_jobs(ds)
                &&& summary == planned_summary(ds, (ne * nl) as int)
                &&& ds.len() == li * ne
            }),
        decreases nl - li,
    {
        let target_lang = &target_langs[li];
        let ghost before = run_dispositions(src, tc, langs, st, explicit_target_status, li as int);
        let mut ei: usize = 0;
        while ei < ne
            invariant
                ne == source@.entries.len(),
                nl == target_langs@.len(),
                ne * nl <= usize::MAX,
                src == source@,
                tc == target_codec@,
                st == statuses@,
                langs == crate::text::strings_view(target_langs@),
                li < nl,
                target_lang@ == langs[li as int],
                before == run_dispositions(src, tc, langs, st, explicit_target_status, li as int),
                before.len() == li * ne,
                ei <= ne,
                ({
                    let ds = before + lang_dispositions(
                        src,
                        tc,
                        langs[li as int],
                        st,
                        explicit_target_status,
                        ei as int,
                    );
                    &&& jobs_view(jobs@) == queued_jobs(ds)
                    &&& summary == planned_summary(ds, (ne * nl) as int)
                    &&& ds.len() == li * ne + ei
                }),
            decreases ne - ei,
        {
            let ghost ds = before + lang_dispositions(
                src,
                tc,
                langs[li as int],
                st,
                explicit_target_status,
                ei as int,
            );
            let ghost d = disposition(
                src.metadata.language,
                src.entries[ei as int],
                tc,
                langs[li as int],
                st,
                explicit_target_status,
            );
            assert(source.entries@[ei as int]@ == src.entries[ei as int]) by {
                assert(src.entries == entries_view(source.entries@));
            }
            let ghost ds2 = before + lang_dispositions(
                src,
                tc,
                langs[li as int],
                st,
                explicit_target_status,
                ei + 1,
            );
            assert(ds2 =~= ds.push(d));
            assert(ds2.drop_last() =~= ds);
            proof {
                assert(li * ne + ei < ne * nl) by (nonlinear_arith)
                    requires
                        li < nl,
                        ei < ne,
                ;
                assert(count_kind(ds, 0) <= ds.len() && count_kind(ds, 1) <= ds.len()
                    && count_kind(ds, 2) <= ds.len() && count_kind(ds, 3) <= ds.len()
                    && count_kind(ds, 4) <= ds.len()) by {
                    lemma_count_le(ds);
                }
            }
            let (kind, job) = dispose(
                &source.metadata.language,
                &source.entries[ei],
                target_codec,
                target_lang,
                statuses,
                explicit_target_status,
            );
            if kind == 0 {
                summary.skipped_do_not_translate = summary.skipped_do_not_translate + 1;
            } else if kind == 1 {
                summary.skipped_plural = summary.skipped_plural + 1;
            } else if kind == 2 {
                summary.skipped_empty_source = summary.skipped_empty_source + 1;
            } else if kind == 3 {
                summary.skipped_status = summary.skipped_status + 1;
            } else {
                summary.queued = summary.queued + 1;
                match job {
                    Some(j) => {
                        jobs.push(j);
                    },
                    None => {},
                }
                assert(jobs_view(jobs@) =~= queued_jobs(ds2));
            }
            ei = ei + 1;
        }
        proof {
            lemma_lang_dispositions_len(src, tc, langs[li as int], st, explicit_target_status, ne as int);
            assert(run_dispositions(src, tc, langs, st, explicit_target_status, li + 1) == before
                + lang_dispositions(src, tc, langs[li as int], st, explicit_target_status, ne as int));
            assert(li * ne + ne == (li + 1) * ne) by (nonlinear_arith);
        }
        li = li + 1;
    }
    Ok((jobs, summary))
}

proof fn lemma_count_le(ds: Seq<Disposition>)
    ensures
        forall|k: int| #[trigger] count_kind(ds, k) <= ds.len(),
    decreases ds.len(),
{
    assert forall|k: int| #[trigger] count_kind(ds, k) <= ds.len() by {
        if ds.len() > 0 {
            lemma_count_le(ds.drop_last());
            assert(count_kind(ds.drop_last(), k) <= ds.drop_last().len());
        }
    }
}

proof fn lemma_counts_partition(ds: Seq<Disposition>)
    ensures
        count_kind(ds, 0) + count_kind(ds, 1) + count_kind(ds, 2) + count_kind(ds, 3) + count_kind(ds, 4)
            == ds.len(),
        queued_jobs(ds).len() == count_kind(ds, 4),
    decreases ds.len(),
{
    if ds.len() > 0 {
        lemma_counts_partition(ds.drop_last());
    }
}

/// Every source entry considered for every target language lands in exactly
/// one place of the plan: a job, or one of the skip counts; and there is one
/// job for each queued entry.
pub proof fn lemma_plan_accounts_for_every_entry(
    src: ResourceView,
    tc: Seq<ResourceView>,
    langs: Seq<Seq<char>>,
    statuses: Seq<EntryStatus>,
    explicit: bool,
)
    requires
        src.entries.len() * langs.len() <= usize::MAX,
    ensures
        ({
            let ds = run_dispositions(src, tc, langs, statuses, explicit, langs.len() as int);
            let s = planned_summary(ds, (src.entries.len() * langs.len()) as int);
            &&& s.total_entries == s.queued + s.skipped_do_not_translate + s.skipped_plural
                + s.skipped_status + s.skipped_empty_source
            &&& queued_jobs(ds).len() == s.queued
        }),
{
    let ds = run_dispositions(src, tc, langs, statuses, explicit, langs.len() as int);
    lemma_run_dispositions_len(src, tc, langs, statuses, explicit, langs.len() as int);
    lemma_counts_partition(ds);
    lemma_count_le(ds);
    assert(count_kind(ds, 0) <= ds.len());
    assert(count_kind(ds, 1) <= ds.len());
    assert(count_kind(ds, 2) <= ds.len());
    assert(count_kind(ds, 3) <= ds.len());
    assert(count_kind(ds, 4) <= ds.len());
}

/// The catalog with an empty resource for `language` added, unless a
/// resource of that identity is there.
pub open spec fn with_target_resource(rs: Seq<ResourceView>, language: Seq<char>) -> Seq<
    ResourceView,
> {
    match identity_match(languages_of(rs), language) {
        Some(_) => rs,
        None => rs.push(
            ResourceView {
                metadata: MetadataView {
                    language: language,
                    domain: Seq::empty(),
                    custom: Seq::empty(),
                },
                entries: Seq::empty(),
            },
        ),
    }
}

pub fn ensure_target_resource(codec: &mut Codec, language: &str) -> (r: Result<(), String>)
    ensures
        r is Ok,
        final(codec)@ == with_target_resource(old(codec)@, language@),
{
    if resource_identity_position(codec, language).is_none() {
        let res = Resource {
            metadata: Metadata {
                language: String::from_str(language),
                domain: String::new(),
                custom: Vec::new(),
            },
            entries: Vec::new(),
        };
        assert(pairs_view(res.metadata.custom@) =~= Seq::empty());
        assert(entries_view(res.entries@) =~= Seq::empty());
        codec.add_resource(res);
    }
    Ok(())
}

/// The catalog with a resource for `language` added, unless a resource of
/// that identity is there: it takes the metadata of `resource`, and its
/// entries when `clone_entries` holds.
pub open spec fn with_resource_like(
    rs: Seq<ResourceView>,
    resource: ResourceView,
    language: Seq<char>,
    clone_entries: bool,
) -> Seq<ResourceView> {
    match identity_match(languages_of(rs), language) {
        Some(_) => rs,
        None => rs.push(
            ResourceView {
                metadata: resource.metadata,
                entries: if clone_entries {
                    resource.entries
                } else {
                    Seq::empty()
                },
            },
        ),
    }
}

pub fn ensure_resource_exists(
    codec: &mut Codec,
    resource: &Resource,
    language: &str,
    clone_entries: bool,
)
    ensures
        final(codec)@ == with_resource_like(old(codec)@, resource@, language@, clone_entries),
{
    if resource_identity_position(codec, language).is_some() {
        return;
    }
    let entries = if clone_entries {
        copy_entries(&resource.entries)
    } else {
        Vec::new()
    };
    assert(!clone_entries ==> entries_view(entries@) =~= Seq::empty());
    codec.add_resource(Resource { metadata: resource.metadata.copy(), entries });
}

/// The value of the first pair keyed `key`.
pub open spec fn pair_lookup(pairs: Seq<(Seq<char>, Seq<char>)>, key: Seq<char>) -> Option<
    Seq<char>,
>
    decreases pairs.len(),
{
    if pairs.len() == 0 {
        None
    } else if pairs[0].0 == key {
        Some(pairs[0].1)
    } else {
        pair_lookup(pairs.drop_first(), key)
    }
}

/// The pairs with `(key, value)` added when no pair is keyed `key`.
pub open spec fn put_absent(pairs: Seq<(Seq<char>, Seq<char>)>, key: Seq<char>, value: Seq<char>) -> Seq<
    (Seq<char>, Seq<char>),
> {
    if pair_lookup(pairs, key) is Some {
        pairs
    } else {
        pairs.push((key, value))
    }
}

pub fn custom_value(pairs: &Vec<(String, String)>, key: &str) -> (r: Option<String>)
    ensures
        opt_seq(r) == pair_lookup(pairs_view(pairs@), key@),
{
    let ghost pv = pairs_view(pairs@);
    let mut i: usize = 0;
    assert(pv.skip(0) =~= pv);
    while i < pairs.len()
        invariant
            i <= pairs@.len(),
            pv == pairs_view(pairs@),
            pair_lookup(pv, key@) == pair_lookup(pv.skip(i as int), key@),
        decreases pairs.len() - i,
    {
        assert(pv.skip(i as int).drop_first() =~= pv.skip(i + 1));
        assert(pv.skip(i as int)[0] == (pairs@[i as int].0@, pairs@[i as int].1@));
        if crate::text::str_eq(pairs[i].0.as_str(), key) {
            return Some(pairs[i].1.clone());
        }
        i = i + 1;
    }
    None
}

pub fn put_if_absent(pairs: &mut Vec<(String, String)>, key: &str, value: &String)
    ensures
        pairs_view(final(pairs)@) == put_absent(pairs_view(old(pairs)@), key@, value@),
{
    if custom_value(pairs, key).is_none() {
        pairs.push((String::from_str(key), value.clone()));
        assert(pairs_view(pairs@) =~= pairs_view(old(pairs)@).push((key@, value@)));
    }
}

/// The catalog with every resource given the `source_language` and `version`
/// values of the source resource where it has none (the source's own
/// language and `1.0` when the source has none either).
pub open spec fn with_xcstrings_metadata(rs: Seq<ResourceView>, src: ResourceView) -> Seq<
    ResourceView,
> {
    let sl = match pair_lookup(src.metadata.custom, "source_language"@) {
        Some(v) => v,
        None => src.metadata.language,
    };
    let ver = match pair_lookup(src.metadata.custom, "version"@) {
        Some(v) => v,
        None => "1.0"@,
    };
    rs.map_values(
        |r: ResourceView|
            ResourceView {
                metadata: MetadataView {
                    language: r.metadata.language,
                    domain: r.metadata.domain,
                    custom: put_absent(
                        put_absent(r.metadata.custom, "source_language"@, sl),
                        "version"@,
                        ver,
                    ),
                },
                entries: r.entries,
            },
    )
}

pub fn propagate_xcstrings_metadata(codec: &mut Codec, source_resource: &Resource)
    ensures
        final(codec)@ == with_xcstrings_metadata(old(codec)@, source_resource@),
{
    let source_language = match custom_value(&source_resource.metadata.custom, "source_language") {
        Some(v) => v,
        None => source_resource.metadata.language.clone(),
    };
    let version = match custom_value(&source_resource.metadata.custom, "version") {
        Some(v) => v,
        None => String::from_str("1.0"),
    };
    let ghost target = with_xcstrings_metadata(old(codec)@, source_resource@);
    let n = codec.resources.len();
    let mut i: usize = 0;
    while i < n
        invariant
            n == codec.resources@.len(),
            n == old(codec).resources@.len(),
            i <= n,
            source_language@ == match pair_lookup(source_resource@.metadata.custom, "source_language"@) {
                Some(v) => v,
                None => source_resource@.metadata.language,
            },
            version@ == match pair_lookup(source_resource@.metadata.custom, "version"@) {
                Some(v) => v,
                None => "1.0"@,
            },
            target == with_xcstrings_metadata(old(codec)@, source_resource@),
            forall|j: int| 0 <= j < i ==> #[trigger] codec@[j] == target[j],
            forall|j: int| i <= j < n ==> #[trigger] codec.resources@[j] == old(codec).resources@[j],
        decreases n - i,
    {
        let ghost before = codec.resources@;
        let ghost cv = codec@;
        let mut res = codec.resources.remove(i);
        let ghost r0 = res@;
        assert(r0 == old(codec)@[i as int]);
        put_if_absent(&mut res.metadata.custom, "source_language", &source_language);
        put_if_absent(&mut res.metadata.custom, "version", &version);
        let ghost r1 = res@;
        codec.resources.insert(i, res);
        assert(codec.resources@ =~= before.update(i as int, res));
        assert(r1 == target[i as int]);
        assert(codec@[i as int] == r1);
        assert forall|j: int| 0 <= j < i implies #[trigger] codec@[j] == target[j] by {
            assert(codec.resources@[j] == before[j]);
            assert(cv[j] == target[j]);
            assert(cv[j] == before[j]@);
        }
        i = i + 1;
    }
    assert(codec@ =~= target);
}

/// A translated value for one key and language.
#[derive(Debug, Clone)]
pub struct TranslationResult {
    pub key: String,
    pub target_lang: String,
    pub translated_value: String,
}

/// The value that `results` hold for `key` and `lang`: that of the last
/// result for them.
pub open spec fn result_for(results: Seq<TranslationResult>, key: Seq<char>, lang: Seq<char>) -> Option<
    Seq<char>,
>
    decreases results.len(),
{
    if results.len() == 0 {
        None
    } else if results.last().key@ == key && results.last().target_lang@ == lang {
        Some(results.last().translated_value@)
    } else {
        result_for(results.drop_last(), key, lang)
    }
}

/// The catalog once `value` is written for `job`: into the existing entry of
/// the target identity (its value, and the output state), or as a new entry
/// carrying the job's note.
pub open spec fn with_result(
    rs: Seq<ResourceView>,
    job: JobView,
    value: Seq<char>,
    status: EntryStatus,
) -> Seq<ResourceView> {
    let note = match job.existing_comment {
        Some(c) => Some(c),
        None => job.source_comment,
    };
    match identity_match(languages_of(rs), job.target_lang) {
        Some(i) => match find_key(rs[i].entries, job.key) {
            Some(j) => {
                let e = rs[i].entries[j];
                with_entry(
                    rs,
                    i,
                    j,
                    EntryView {
                        id: e.id,
                        value: TranslationView::Singular(value),
                        comment: e.comment,
                        status: status,
                    },
                )
            },
            None => added(
                rs,
                job.key,
                job.target_lang,
                TranslationView::Singular(value),
                note,
                Some(status),
            ),
        },
        None => added(
            rs,
            job.key,
            job.target_lang,
            TranslationView::Singular(value),
            note,
            Some(status),
        ),
    }
}

/// The catalog once the results of the first `n` jobs are written, in job
/// order; a job without a result leaves it as it is.
pub open spec fn with_results(
    rs: Seq<ResourceView>,
    jobs: Seq<JobView>,
    results: Seq<TranslationResult>,
    status: EntryStatus,
    n: int,
) -> Seq<ResourceView>
    decreases n,
{
    if n <= 0 {
        rs
    } else {
        let prev = with_results(rs, jobs, results, status, n - 1);
        let job = jobs[n - 1];
        match result_for(results, job.key, job.target_lang) {
            Some(v) => with_result(prev, job, v, status),
            None => prev,
        }
    }
}

fn find_result(results: &[TranslationResult], key: &str, lang: &str) -> (r: Option<String>)
    ensures
        opt_seq(r) == result_for(results@, key@, lang@),
{
    let mut i: usize = results.len();
    assert(results@.take(i as int) =~= results@);
    while i > 0
        invariant
            i <= results@.len(),
            result_for(results@, key@, lang@) == result_for(results@.take(i as int), key@, lang@),
        decreases i,
    {
        assert(results@.take(i as int).drop_last() =~= results@.take(i - 1));
        let r = &results[i - 1];
        if crate::text::str_eq(r.key.as_str(), key) && crate::text::str_eq(
            r.target_lang.as_str(),
            lang,
        ) {
            return Some(r.translated_value.clone());
        }
        i = i - 1;
    }
    None
}

/// The line that reports one translated job.
pub open spec fn result_line(job: JobView, value: Seq<char>) -> Seq<char> {
    job.target_lang + "\t"@ + job.key + "\t"@ + inline_value(job.source_value) + " => "@ + inline_value(value)
}

/// The lines of the jobs that have a result, in job order.
pub open spec fn job_result_lines(jobs: Seq<JobView>, results: Seq<TranslationResult>) -> Seq<Seq<char>>
    decreases jobs.len(),
{
    if jobs.len() == 0 {
        Seq::empty()
    } else {
        let job = jobs.last();
        job_result_lines(jobs.drop_last(), results) + match result_for(results, job.key, job.target_lang) {
            Some(v) => seq![result_line(job, v)],
            None => Seq::empty(),
        }
    }
}

/// What a run prints of its results: nothing without results; otherwise a
/// heading, then one line per job that has a result.
pub open spec fn results_text(jobs: Seq<JobView>, results: Seq<TranslationResult>) -> Seq<Seq<char>> {
    if results.len() == 0 {
        Seq::empty()
    } else {
        seq!["Translation results:"@] + job_result_lines(jobs, results)
    }
}

pub fn translation_result_lines(jobs: &[TranslationJob], results: &[TranslationResult]) -> (r: Vec<String>)
    ensures
        strings_view(r@) == results_text(jobs_view(jobs@), results@),
{
    let mut out: Vec<String> = Vec::new();
    if results.len() == 0 {
        assert(strings_view(out@) =~= Seq::<Seq<char>>::empty());
        return out;
    }
    out.push(owned("Translation results:"));
    let ghost jv = jobs_view(jobs@);
    let mut i: usize = 0;
    assert(jv.take(0) =~= Seq::<JobView>::empty());
    assert(strings_view(out@) =~= seq!["Translation results:"@] + job_result_lines(jv.take(0), results@));
    while i < jobs.len()
        invariant
            i <= jobs@.len(),
            jv == jobs_view(jobs@),
            strings_view(out@) == seq!["Translation results:"@] + job_result_lines(jv.take(i as int), results@),
        decreases jobs.len() - i,
    {
        let job = &jobs[i];
        assert(jv.take(i + 1).drop_last() =~= jv.take(i as int));
        assert(jv.take(i + 1).last() == job@);
        let ghost before = strings_view(out@);
        match find_result(results, job.key.as_str(), job.target_lang.as_str()) {
            Some(v) => {
                let mut line = job.target_lang.clone();
                line.append("\t");
                line.append(job.key.as_str());
                line.append("\t");
                let s = format_inline_value(job.source_value.as_str());
                line.append(s.as_str());
                line.append(" => ");
                let t = format_inline_value(v.as_str());
                line.append(t.as_str());
                out.push(line);
                assert(strings_view(out@) =~= before.push(result_line(job@, v@)));
            },
            None => {},
        }
        i = i + 1;
    }
    assert(jv.take(i as int) =~= jv);
    out
}

fn write_result(codec: &mut Codec, job: &TranslationJob, value: &String, status: EntryStatus)
    ensures
        final(codec)@ == with_result(old(codec)@, job@, value@, status),
{
    if let Some(i) = resource_identity_position(codec, job.target_lang.as_str()) {
        if let Some(j) = key_position(&codec.resources[i].entries, job.key.as_str()) {
            proof {
                lemma_find_key_bounds(codec@[i as int].entries, job.key@);
            }
            let old_e = &codec.resources[i].entries[j];
            let e = Entry {
                id: old_e.id.clone(),
                value: Translation::Singular(value.clone()),
                comment: copy_opt_string(&old_e.comment),
                status,
            };
            codec.set_entry(i, j, e);
            return;
        }
    }
    let note = match &job.existing_comment {
        Some(c) => Some(c.clone()),
        None => copy_opt_string(&job.source_comment),
    };
    let _ = codec.add_entry(
        job.key.as_str(),
        job.target_lang.as_str(),
        Translation::Singular(value.clone()),
        note,
        Some(status),
    );
}

/// Writes the translated values into the target catalog, job by job.
pub fn apply_translation_results(
    target_codec: &mut Codec,
    jobs: &[TranslationJob],
    results: &[TranslationResult],
    output_status: EntryStatus,
) -> (r: Result<(), String>)
    ensures
        r is Ok,
        final(target_codec)@ == with_results(
            old(target_codec)@,
            jobs_view(jobs@),
            results@,
            output_status,
            jobs@.len() as int,
        ),
{
    let ghost jv = jobs_view(jobs@);
    let mut i: usize = 0;
    while i < jobs.len()
        invariant
            i <= jobs@.len(),
            jv == jobs_view(jobs@),
            target_codec@ == with_results(old(target_codec)@, jv, results@, output_status, i as int),
        decreases jobs.len() - i,
    {
        let job = &jobs[i];
        assert(jv[i as int] == job@);
        match find_result(results, job.key.as_str(), job.target_lang.as_str()) {
            Some(v) => {
                write_result(target_codec, job, &v, output_status);
            },
            None => {},
        }
        i = i + 1;
    }
    Ok(())
}

/// A status name with `-` and ` ` read as `_`.
pub open spec fn status_key(raw: Seq<char>) -> Seq<char> {
    replace_char(replace_char(raw, '-', '_'), ' ', '_')
}

/// The trimmed, non-blank pieces of a comma-separated list.
pub open spec fn listed_values(pieces: Seq<Seq<char>>) -> Seq<Seq<char>>
    decreases pieces.len(),
{
    if pieces.len() == 0 {
        Seq::empty()
    } else if trim(pieces.last()).len() == 0 {
        listed_values(pieces.drop_last())
    } else {
        listed_values(pieces.drop_last()).push(trim(pieces.last()))
    }
}

/// The states a translate run works on: parsed in order, each once; the first
/// unknown name refuses the list.
pub open spec fn parsed_statuses(raws: Seq<Seq<char>>) -> Result<Seq<EntryStatus>, Seq<char>>
    decreases raws.len(),
{
    if raws.len() == 0 {
        Ok(Seq::empty())
    } else {
        match parsed_statuses(raws.drop_last()) {
            Err(e) => Err(e),
            Ok(prev) => match status_named(status_key(raws.last())) {
                None => Err(
                    "Invalid translate status '"@ + raws.last() + "': "@ + unknown_status_message(
                        status_key(raws.last()),
                    ),
                ),
                Some(st) => if prev.contains(st) {
                    Ok(prev)
                } else {
                    Ok(prev.push(st))
                },
            },
        }
    }
}

/// The status names a run filters by: from the command line (a
/// comma-separated list), else from the configuration, else `new` and
/// `stale`.
pub open spec fn status_names(cli: Option<Seq<char>>, cfg: Option<Seq<Seq<char>>>) -> Seq<
    Seq<char>,
> {
    match cli {
        Some(c) => listed_values(split_on(c, ',')),
        None => match cfg {
            Some(v) => v,
            None => seq!["new"@, "stale"@],
        },
    }
}

pub open spec fn statuses_result_view(r: Result<Vec<EntryStatus>, String>) -> Result<
    Seq<EntryStatus>,
    Seq<char>,
> {
    match r {
        Ok(v) => Ok(v@),
        Err(e) => Err(e@),
    }
}

fn listed_pieces(pieces: &Vec<String>) -> (r: Vec<String>)
    ensures
        strings_view(r@) == listed_values(strings_view(pieces@)),
{
    let ghost pv = strings_view(pieces@);
    let mut r: Vec<String> = Vec::new();
    let mut i: usize = 0;
    assert(pv.take(0) =~= Seq::<Seq<char>>::empty());
    assert(strings_view(r@) =~= Seq::<Seq<char>>::empty());
    while i < pieces.len()
        invariant
            i <= pieces@.len(),
            pv == strings_view(pieces@),
            strings_view(r@) == listed_values(pv.take(i as int)),
        decreases pieces.len() - i,
    {
        assert(pv.take(i + 1).drop_last() =~= pv.take(i as int));
        let v = chars_of(pieces[i].as_str());
        let t = trim_chars(v.as_slice());
        if t.len() > 0 {
            let ghost before = strings_view(r@);
            r.push(string_from_chars(t.as_slice()));
            assert(strings_view(r@) =~= before.push(t@));
        }
        i = i + 1;
    }
    assert(pv.take(i as int) =~= pv);
    r
}

proof fn lemma_statuses_err_sticks(raws: Seq<Seq<char>>, i: int, e: Seq<char>)
    requires
        0 <= i <= raws.len(),
        parsed_statuses(raws.take(i)) == Err::<Seq<EntryStatus>, Seq<char>>(e),
    ensures
        parsed_statuses(raws) == Err::<Seq<EntryStatus>, Seq<char>>(e),
    decreases raws.len() - i,
{
    if i < raws.len() {
        assert(raws.take(i + 1).drop_last() =~= raws.take(i));
        lemma_statuses_err_sticks(raws, i + 1, e);
    } else {
        assert(raws.take(i) =~= raws);
    }
}

fn status_key_of(raw: &str) -> (r: String)
    ensures
        r@ == status_key(raw@),
{
    let v = chars_of(raw);
    let a = replace_chars(v.as_slice(), '-', '_');
    let b = replace_chars(a.as_slice(), ' ', '_');
    string_from_chars(b.as_slice())
}

/// Parses the status filter of a translate run.
pub fn parse_status_filter(cli: Option<&str>, cfg: Option<&Vec<String>>) -> (r: Result<
    Vec<EntryStatus>,
    String,
>)
    ensures
        statuses_result_view(r) == parsed_statuses(
            status_names(
                crate::languages::opt_str_view(cli),
                match cfg {
                    Some(v) => Some(strings_view(v@)),
                    None => None,
                },
            ),
        ),
{
    let raw_values: Vec<String> = match cli {
        Some(c) => {
            let pieces = split_str(c, ',');
            listed_pieces(&pieces)
        },
        None => match cfg {
            Some(v) => v.clone(),
            None => {
                let mut d: Vec<String> = Vec::new();
                d.push(String::from_str("new"));
                d.push(String::from_str("stale"));
                assert(strings_view(d@) =~= seq!["new"@, "stale"@]);
                d
            },
        },
    };
    let ghost rv = strings_view(raw_values@);
    let ghost names = status_names(
        crate::languages::opt_str_view(cli),
        match cfg {
            Some(v) => Some(strings_view(v@)),
            None => None,
        },
    );
    assert(rv == names);
    let mut statuses: Vec<EntryStatus> = Vec::new();
    let mut i: usize = 0;
    assert(rv.take(0) =~= Seq::<Seq<char>>::empty());
    while i < raw_values.len()
        invariant
            i <= raw_values@.len(),
            rv == strings_view(raw_values@),
            rv == names,
            names == status_names(
                crate::languages::opt_str_view(cli),
                match cfg {
                    Some(v) => Some(strings_view(v@)),
                    None => None,
                },
            ),
            parsed_statuses(rv.take(i as int)) == Ok::<Seq<EntryStatus>, Seq<char>>(statuses@),
        decreases raw_values.len() - i,
    {
        assert(rv.take(i + 1).drop_last() =~= rv.take(i as int));
        let raw = raw_values[i].as_str();
        let normalized = status_key_of(raw);
        match EntryStatus::parse(normalized.as_str()) {
            Err(e) => {
                let mut msg = String::from_str("Invalid translate status '");
                msg.append(raw);
                msg.append("': ");
                msg.append(e.as_str());
                proof {
                    assert(rv.take(i + 1).last() == raw@);
                    assert(parsed_statuses(rv.take(i + 1)) == Err::<Seq<EntryStatus>, Seq<char>>(
                        msg@,
                    ));
                    lemma_statuses_err_sticks(rv, i + 1, msg@);
                }
                return Err(msg);
            },
            Ok(st) => {
                if !status_listed(statuses.as_slice(), st) {
                    statuses.push(st);
                }
            },
        }
        i = i + 1;
    }
    assert(rv.take(i as int) =~= rv);
    Ok(statuses)
}

/// The state translated entries are given: `needs_review` by default; only
/// `needs_review` and `translated` are accepted.
pub open spec fn output_status_for(raw: Option<Seq<char>>) -> Result<EntryStatus, Seq<char>> {
    match raw {
        None => Ok(EntryStatus::NeedsReview),
        Some(r) => match status_named(status_key(trim(r))) {
            None => Err(
                "Invalid translate output_status '"@ + r + "': "@ + unknown_status_message(
                    status_key(trim(r)),
                ),
            ),
            Some(st) => if st == EntryStatus::NeedsReview || st == EntryStatus::Translated {
                Ok(st)
            } else {
                Err(
                    "translate output status must be either 'needs_review' or 'translated', got '"@
                        + r + "'"@,
                )
            },
        },
    }
}

pub fn parse_output_status(raw: Option<&str>) -> (r: Result<EntryStatus, String>)
    ensures
        match output_status_for(crate::languages::opt_str_view(raw)) {
            Ok(st) => r == Ok::<EntryStatus, String>(st),
            Err(e) => r matches Err(m) && m@ == e,
        },
{
    let raw = match raw {
        None => return Ok(EntryStatus::NeedsReview),
        Some(r) => r,
    };
    let v = chars_of(raw);
    let t = trim_chars(v.as_slice());
    let ts = string_from_chars(t.as_slice());
    let normalized = status_key_of(ts.as_str());
    match EntryStatus::parse(normalized.as_str()) {
        Err(e) => {
            let mut msg = String::from_str("Invalid translate output_status '");
            msg.append(raw);
            msg.append("': ");
            msg.append(e.as_str());
            Err(msg)
        },
        Ok(st) => match st {
            EntryStatus::NeedsReview | EntryStatus::Translated => Ok(st),
            _ => Err(
                crate::text::cat3(
                    "translate output status must be either 'needs_review' or 'translated', got '",
                    raw,
                    "'",
                ),
            ),
        },
    }
}

/// How many workers a run starts: as many as allowed, no more than there are
/// jobs, and at least one.
pub open spec fn workers_for(concurrency: int, jobs: int) -> int {
    let m = if concurrency < jobs {
        concurrency
    } else {
        jobs
    };
    if m < 1 {
        1
    } else {
        m
    }
}

pub fn worker_count(concurrency: usize, jobs: usize) -> (r: usize)
    ensures
        r == workers_for(concurrency as int, jobs as int),
{
    let m = if concurrency < jobs {
        concurrency
    } else {
        jobs
    };
    if m < 1 {
        1
    } else {
        m
    }
}

/// A translated value is refused when it is blank, or when its placeholders
/// differ from the source's. The placeholder signatures are given rendered.
pub open spec fn generated_check(
    job: JobView,
    value: Seq<char>,
    source_signature: Seq<char>,
    translated_signature: Seq<char>,
) -> Result<(), Seq<char>> {
    if trim(value).len() == 0 {
        Err(
            "Translation for key '"@ + job.key + "' and language '"@ + job.target_lang
                + "' was blank"@,
        )
    } else if source_signature != translated_signature {
        Err(
            "Translation for key '"@ + job.key + "' and language '"@ + job.target_lang
                + "' changed placeholders: source "@ + source_signature + ", translated "@
                + translated_signature,
        )
    } else {
        Ok(())
    }
}

pub fn validate_generated_translation(
    job: &TranslationJob,
    translated_value: &str,
    source_signature: &str,
    translated_signature: &str,
) -> (r: Result<(), String>)
    ensures
        match generated_check(job@, translated_value@, source_signature@, translated_signature@) {
            Ok(()) => r is Ok,
            Err(e) => r matches Err(m) && m@ == e,
        },
{
    let v = chars_of(translated_value);
    if trim_chars(v.as_slice()).len() == 0 {
        let mut m = String::from_str("Translation for key '");
        m.append(job.key.as_str());
        m.append("' and language '");
        m.append(job.target_lang.as_str());
        m.append("' was blank");
        return Err(m);
    }
    if !crate::text::str_eq(source_signature, translated_signature) {
        let mut m = String::from_str("Translation for key '");
        m.append(job.key.as_str());
        m.append("' and language '");
        m.append(job.target_lang.as_str());
        m.append("' changed placeholders: source ");
        m.append(source_signature);
        m.append(", translated ");
        m.append(translated_signature);
        return Err(m);
    }
    Ok(())
}

/// What a running translation hears from its workers.
pub enum RunEvent {
    /// A worker took up the job with this identifier.
    Started(String),
    /// A worker finished the job with this identifier.
    Finished(String, Result<TranslationResult, String>),
    /// A worker stopped with an error of its own.
    WorkerFailed(String),
}

/// How the dashboard item of a job changes.
#[derive(Debug, Clone)]
pub struct ItemUpdate {
    pub id: String,
    pub status: DashboardItemStatus,
    pub output_text: Option<String>,
    pub error_text: Option<String>,
}

/// Takes in one event of a running translation: a finished job counts as
/// translated (its value kept) or failed; a worker's own failure counts as
/// failed. The dashboard item to change is returned.
pub fn record_run_event(
    summary: &mut TranslationSummary,
    results: &mut Vec<TranslationResult>,
    event: RunEvent,
) -> (r: Option<ItemUpdate>)
    requires
        old(summary).translated < usize::MAX,
        old(summary).failed < usize::MAX,
    ensures
        match event {
            RunEvent::Started(id) => {
                &&& *final(summary) == *old(summary)
                &&& final(results)@ == old(results)@
                &&& r matches Some(u) && u.id@ == id@ && u.status == DashboardItemStatus::Running
                    && u.output_text is None && u.error_text is None
            },
            RunEvent::Finished(id, Ok(item)) => {
                &&& *final(summary) == TranslationSummary {
                    translated: (old(summary).translated + 1) as usize,
                    ..*old(summary)
                }
                &&& final(results)@ == old(results)@.push(item)
                &&& r matches Some(u) && u.id@ == id@ && u.status
                    == DashboardItemStatus::Succeeded && opt_seq(u.output_text) == Some(
                    item.translated_value@,
                ) && u.error_text is None
            },
            RunEvent::Finished(id, Err(e)) => {
                &&& *final(summary) == TranslationSummary {
                    failed: (old(summary).failed + 1) as usize,
                    ..*old(summary)
                }
                &&& final(results)@ == old(results)@
                &&& r matches Some(u) && u.id@ == id@ && u.status == DashboardItemStatus::Failed
                    && u.output_text is None && opt_seq(u.error_text) == Some(e@)
            },
            RunEvent::WorkerFailed(_) => {
                &&& *final(summary) == TranslationSummary {
                    failed: (old(summary).failed + 1) as usize,
                    ..*old(summary)
                }
                &&& final(results)@ == old(results)@
                &&& r is None
            },
        },
{
    match event {
        RunEvent::Started(id) => Some(
            ItemUpdate {
                id,
                status: DashboardItemStatus::Running,
                output_text: None,
                error_text: None,
            },
        ),
        RunEvent::Finished(id, Ok(item)) => {
            summary.translated = summary.translated + 1;
            let value = item.translated_value.clone();
            results.push(item);
            Some(
                ItemUpdate {
                    id,
                    status: DashboardItemStatus::Succeeded,
                    output_text: Some(value),
                    error_text: None,
                },
            )
        },
        RunEvent::Finished(id, Err(e)) => {
            summary.failed = summary.failed + 1;
            Some(
                ItemUpdate {
                    id,
                    status: DashboardItemStatus::Failed,
                    output_text: None,
                    error_text: Some(e),
                },
            )
        },
        RunEvent::WorkerFailed(_) => {
            summary.failed = summary.failed + 1;
            None
        },
    }
}

/// What a finished run reports: a refusal when any job failed, else the
/// counts and the output path.
pub fn run_outcome(summary: &TranslationSummary, output_path: &String) -> (r: Result<
    TranslateOutcome,
    String,
>)
    requires
        skipped_total(*summary) <= usize::MAX,
    ensures
        summary.failed > 0 ==> (r matches Err(e) && e@
            == "Translation failed; no files were written"@),
        summary.failed == 0 ==> (r matches Ok(o) && o.translated == summary.translated
            && o.skipped == skipped_total(*summary) && o.failed == 0 && opt_seq(o.output_path)
            == Some(output_path@)),
{
    if summary.failed > 0 {
        return Err(String::from_str("Translation failed; no files were written"));
    }
    Ok(
        TranslateOutcome {
            translated: summary.translated,
            skipped: count_skipped(summary),
            failed: 0,
            output_path: Some(output_path.clone()),
        },
    )
}

/// What a run does once its jobs are done.
#[derive(Debug, Clone, Copy, PartialEq, Eq, Structural)]
pub enum FinishStep {
    /// Some job failed: nothing is written, and the run fails.
    Refuse,
    /// A dry run: nothing is written.
    DryRun,
    /// The output is written; `true` when the namespace is then pushed back
    /// to Tolgee.
    Write(bool),
}

/// A failed job means no file is written; a dry run writes nothing; otherwise
/// the output is written, and pushed back to Tolgee when something was
/// translated and the run took its catalog from Tolgee.
pub open spec fn finish_step(summary: TranslationSummary, dry_run: bool, from_tolgee: bool) -> FinishStep {
    if summary.failed > 0 {
        FinishStep::Refuse
    } else if dry_run {
        FinishStep::DryRun
    } else {
        FinishStep::Write(summary.translated > 0 && from_tolgee)
    }
}

pub fn plan_finish(summary: &TranslationSummary, dry_run: bool, from_tolgee: bool) -> (r: FinishStep)
    ensures
        r == finish_step(*summary, dry_run, from_tolgee),
{
    if summary.failed > 0 {
        FinishStep::Refuse
    } else if dry_run {
        FinishStep::DryRun
    } else {
        FinishStep::Write(summary.translated > 0 && from_tolgee)
    }
}

/// The source patterns of a translate run, and whether globs among them are
/// expanded: the command line's source as it is; else the configured source,
/// or sources, each read relative to the configuration's directory.
pub open spec fn source_patterns(
    cli: Option<Seq<char>>,
    cfg_source: Option<Seq<char>>,
    cfg_sources: Option<Seq<Seq<char>>>,
    config_dir: Option<Seq<char>>,
) -> (Seq<Seq<char>>, bool) {
    match cli {
        Some(s) => (seq![s], false),
        None => match cfg_source {
            Some(s) => (seq![crate::config::config_relative(config_dir, s)], true),
            None => match cfg_sources {
                Some(ss) => (
                    ss.map_values(|x: Seq<char>| crate::config::config_relative(config_dir, x)),
                    true,
                ),
                None => (Seq::empty(), false),
            },
        },
    }
}

pub open spec fn cfg_source_of(cfg: Option<&crate::config::TranslateConfig>) -> Option<Seq<char>> {
    match cfg {
        Some(c) => crate::config::or_else(
            crate::config::opt_string(c.input.source),
            crate::config::opt_string(c.source),
        ),
        None => None,
    }
}

pub open spec fn cfg_sources_of(cfg: Option<&crate::config::TranslateConfig>) -> Option<
    Seq<Seq<char>>,
> {
    match cfg {
        Some(c) => crate::config::or_else(
            crate::config::opt_list_owned(c.input.sources),
            crate::config::opt_list_owned(c.sources),
        ),
        None => None,
    }
}

/// Some pattern holds a glob metacharacter.
pub open spec fn any_glob(ps: Seq<Seq<char>>) -> bool {
    exists|i: int| 0 <= i < ps.len() && crate::path_glob::glob_meta(#[trigger] ps[i])
}

/// The source patterns of a translate run.
pub fn configured_sources(
    opts: &TranslateOptions,
    cfg: Option<&crate::config::TranslateConfig>,
    config_dir: Option<&str>,
) -> (r: (Vec<String>, bool))
    ensures
        (strings_view(r.0@), r.1) == source_patterns(
            opt_seq(opts.source),
            cfg_source_of(cfg),
            cfg_sources_of(cfg),
            crate::languages::opt_str_view(config_dir),
        ),
{
    if let Some(source) = &opts.source {
        let mut v: Vec<String> = Vec::new();
        v.push(source.clone());
        assert(strings_view(v@) =~= seq![source@]);
        return (v, false);
    }
    if let Some(c) = cfg {
        if let Some(source) = c.resolved_source() {
            let mut v: Vec<String> = Vec::new();
            v.push(crate::config::resolve_config_relative_path(config_dir, source));
            assert(strings_view(v@) =~= seq![
                crate::config::config_relative(crate::languages::opt_str_view(config_dir), source@)
            ]);
            return (v, true);
        }
        if let Some(sources) = c.resolved_sources() {
            let ghost dir = crate::languages::opt_str_view(config_dir);
            let mut v: Vec<String> = Vec::new();
            let mut i: usize = 0;
            while i < sources.len()
                invariant
                    i <= sources@.len(),
                    dir == crate::languages::opt_str_view(config_dir),
                    v@.len() == i,
                    forall|j: int|
                        0 <= j < i ==> (#[trigger] v@[j])@ == crate::config::config_relative(
                            dir,
                            sources@[j]@,
                        ),
                decreases sources.len() - i,
            {
                v.push(crate::config::resolve_config_relative_path(config_dir, sources[i].as_str()));
                i = i + 1;
            }
            assert(strings_view(v@) =~= strings_view(sources@).map_values(
                |x: Seq<char>| crate::config::config_relative(dir, x),
            ));
            return (v, true);
        }
    }
    let v: Vec<String> = Vec::new();
    assert(strings_view(v@) =~= Seq::<Seq<char>>::empty());
    (v, false)
}

fn any_glob_in(ps: &Vec<String>) -> (r: bool)
    ensures
        r == any_glob(strings_view(ps@)),
{
    let mut i: usize = 0;
    while i < ps.len()
        invariant
            i <= ps@.len(),
            forall|j: int| 0 <= j < i ==> !crate::path_glob::glob_meta(#[trigger] ps@[j]@),
        decreases ps.len() - i,
    {
        if crate::path_glob::has_glob_meta(ps[i].as_str()) {
            assert(strings_view(ps@)[i as int] == ps@[i as int]@);
            return true;
        }
        i = i + 1;
    }
    assert forall|j: int| 0 <= j < strings_view(ps@).len() implies !crate::path_glob::glob_meta(
        #[trigger] strings_view(ps@)[j],
    ) by {
        assert(strings_view(ps@)[j] == ps@[j]@);
    }
    false
}

/// The sources of a translate run: the source patterns, with globbed
/// configured patterns expanded against the files walked from their roots.
pub open spec fn run_sources(
    cli: Option<Seq<char>>,
    cfg_source: Option<Seq<char>>,
    cfg_sources: Option<Seq<Seq<char>>>,
    config_dir: Option<Seq<char>>,
    walked: Seq<Seq<char>>,
) -> Result<Seq<Seq<char>>, Seq<char>> {
    let (ps, expand) = source_patterns(cli, cfg_source, cfg_sources, config_dir);
    if expand && any_glob(ps) {
        crate::path_glob::expanded_inputs(ps, walked)
    } else {
        Ok(ps)
    }
}

pub fn resolve_config_sources(
    opts: &TranslateOptions,
    cfg: Option<&crate::config::TranslateConfig>,
    config_dir: Option<&str>,
    walked: &Vec<String>,
) -> (r: Result<Vec<String>, String>)
    ensures
        crate::languages::list_result_view(r) == run_sources(
            opt_seq(opts.source),
            cfg_source_of(cfg),
            cfg_sources_of(cfg),
            crate::languages::opt_str_view(config_dir),
            strings_view(walked@),
        ),
{
    let (ps, expand) = configured_sources(opts, cfg, config_dir);
    if expand && any_glob_in(&ps) {
        crate::path_glob::expand_input_globs(&ps, walked)
    } else {
        Ok(ps)
    }
}

pub open spec fn loaded_translate(loaded: Option<&crate::config::LoadedConfig>) -> Option<
    &crate::config::TranslateConfig,
> {
    match loaded {
        Some(l) => Some(&l.data.translate),
        None => None,
    }
}

pub open spec fn loaded_dir(loaded: Option<&crate::config::LoadedConfig>) -> Option<Seq<char>> {
    match loaded {
        Some(l) => crate::paths::path_parent(l.path@),
        None => None,
    }
}

/// The configured target (or output) path, read relative to the
/// configuration's directory.
pub open spec fn configured_path(p: Option<Seq<char>>, dir: Option<Seq<char>>) -> Option<Seq<char>> {
    match p {
        Some(x) => Some(crate::config::config_relative(dir, x)),
        None => None,
    }
}

pub open spec fn cfg_target_of(cfg: Option<&crate::config::TranslateConfig>) -> Option<Seq<char>> {
    match cfg {
        Some(c) => match c.output {
            Some(crate::config::TranslateOutputScope::Config(o)) => crate::config::or_else(
                opt_seq(o.target),
                opt_seq(c.target),
            ),
            _ => opt_seq(c.target),
        },
        None => None,
    }
}

pub open spec fn cfg_output_of(cfg: Option<&crate::config::TranslateConfig>) -> Option<Seq<char>> {
    match cfg {
        Some(c) => match c.output {
            Some(crate::config::TranslateOutputScope::Path(p)) => Some(p@),
            Some(crate::config::TranslateOutputScope::Config(o)) => opt_seq(o.path),
            None => None,
        },
        None => None,
    }
}

pub open spec fn cfg_source_lang_of(cfg: Option<&crate::config::TranslateConfig>) -> Option<
    Seq<char>,
> {
    match cfg {
        Some(c) => crate::config::or_else(opt_seq(c.input.lang), opt_seq(c.source_lang)),
        None => None,
    }
}

pub open spec fn both_sources_message() -> Seq<char> {
    "Config translate.input.source/translate.source and translate.input.sources/translate.sources cannot both be set"@
}

pub open spec fn source_required_message() -> Seq<char> {
    "--source is required unless translate.input.source/translate.source or translate.input.sources/translate.sources is set in langcodec.toml"@
}

pub open spec fn sources_combined_message() -> Seq<char> {
    "translate.input.sources/translate.sources cannot be combined with translate.output.target/translate.target, translate.output.path/translate.output, or CLI --target/--output; use in-place multi-language sources or invoke files individually"@
}

/// One run of a translate command: the options of the command for one
/// source.
pub open spec fn is_invocation(
    r: TranslateOptions,
    opts: TranslateOptions,
    source: Seq<char>,
    target: Option<Seq<char>>,
    output: Option<Seq<char>>,
    source_lang: Option<Seq<char>>,
    config: Option<Seq<char>>,
) -> bool {
    &&& opt_seq(r.source) == Some(source)
    &&& opt_seq(r.target) == target
    &&& opt_seq(r.output) == output
    &&& opt_seq(r.source_lang) == source_lang
    &&& strings_view(r.target_langs@) == strings_view(opts.target_langs@)
    &&& opt_seq(r.status) == opt_seq(opts.status)
    &&& opt_seq(r.provider) == opt_seq(opts.provider)
    &&& opt_seq(r.model) == opt_seq(opts.model)
    &&& r.concurrency == opts.concurrency
    &&& opt_seq(r.config) == config
    &&& r.use_tolgee == opts.use_tolgee
    &&& opt_seq(r.tolgee_config) == opt_seq(opts.tolgee_config)
    &&& strings_view(r.tolgee_namespaces@) == strings_view(opts.tolgee_namespaces@)
    &&& r.dry_run == opts.dry_run
    &&& r.strict == opts.strict
    &&& r.ui_mode == opts.ui_mode
}

fn copy_strings(v: &Vec<String>) -> (r: Vec<String>)
    ensures
        strings_view(r@) == strings_view(v@),
{
    let mut r: Vec<String> = Vec::new();
    let mut i: usize = 0;
    while i < v.len()
        invariant
            i <= v@.len(),
            r@.len() == i,
            forall|j: int| 0 <= j < i ==> (#[trigger] r@[j])@ == v@[j]@,
        decreases v.len() - i,
    {
        r.push(v[i].clone());
        i = i + 1;
    }
    assert(strings_view(r@) =~= strings_view(v@));
    r
}

/// The runs of a translate command, one per source: a configuration may not
/// set both a source and sources; some source is required; several sources
/// cannot share a target or output. Each run gets the configured target,
/// output and source language where the command line gives none.
pub fn expand_translate_invocations(
    opts: &TranslateOptions,
    loaded: Option<&crate::config::LoadedConfig>,
    walked: &Vec<String>,
) -> (r: Result<Vec<TranslateOptions>, String>)
    ensures
        ({
            let cfg = loaded_translate(loaded);
            let dir = loaded_dir(loaded);
            let sources = run_sources(
                opt_seq(opts.source),
                cfg_source_of(cfg),
                cfg_sources_of(cfg),
                dir,
                strings_view(walked@),
            );
            let target = crate::config::or_else(
                opt_seq(opts.target),
                configured_path(cfg_target_of(cfg), dir),
            );
            let output = crate::config::or_else(
                opt_seq(opts.output),
                configured_path(cfg_output_of(cfg), dir),
            );
            let config = match loaded {
                Some(l) => Some(l.path@),
                None => opt_seq(opts.config),
            };
            if cfg_source_of(cfg) is Some && cfg_sources_of(cfg) is Some {
                r matches Err(e) && e@ == both_sources_message()
            } else {
                match sources {
                    Err(e) => r matches Err(m) && m@ == e,
                    Ok(ss) => if ss.len() == 0 {
                        r matches Err(e) && e@ == source_required_message()
                    } else if ss.len() > 1 && (target is Some || output is Some) {
                        r matches Err(e) && e@ == sources_combined_message()
                    } else {
                        r matches Ok(runs) && runs@.len() == ss.len() && forall|i: int|
                            0 <= i < ss.len() ==> is_invocation(
                                #[trigger] runs@[i],
                                *opts,
                                ss[i],
                                target,
                                output,
                                crate::config::or_else(
                                    opt_seq(opts.source_lang),
                                    cfg_source_lang_of(cfg),
                                ),
                                config,
                            )
                    },
                }
            }
        }),
{
    let cfg: Option<&crate::config::TranslateConfig> = match loaded {
        Some(l) => Some(&l.data.translate),
        None => None,
    };
    let config_path: Option<String> = match loaded {
        Some(l) => Some(l.path.clone()),
        None => copy_opt_string(&opts.config),
    };
    let config_dir: Option<String> = match loaded {
        Some(l) => l.config_dir(),
        None => None,
    };
    let dir: Option<&str> = match &config_dir {
        Some(d) => Some(d.as_str()),
        None => None,
    };
    if let Some(c) = cfg {
        if c.resolved_source().is_some() && c.resolved_sources().is_some() {
            return Err(
                String::from_str(
                    "Config translate.input.source/translate.source and translate.input.sources/translate.sources cannot both be set",
                ),
            );
        }
    }
    let sources = match resolve_config_sources(opts, cfg, dir, walked) {
        Ok(s) => s,
        Err(e) => return Err(e),
    };
    if sources.len() == 0 {
        return Err(
            String::from_str(
                "--source is required unless translate.input.source/translate.source or translate.input.sources/translate.sources is set in langcodec.toml",
            ),
        );
    }
    let target: Option<String> = match &opts.target {
        Some(t) => Some(t.clone()),
        None => match cfg {
            Some(c) => match c.resolved_target() {
                Some(t) => Some(crate::config::resolve_config_relative_path(dir, t)),
                None => None,
            },
            None => None,
        },
    };
    let output: Option<String> = match &opts.output {
        Some(t) => Some(t.clone()),
        None => match cfg {
            Some(c) => match c.resolved_output_path() {
                Some(t) => Some(crate::config::resolve_config_relative_path(dir, t)),
                None => None,
            },
            None => None,
        },
    };
    if sources.len() > 1 && (target.is_some() || output.is_some()) {
        return Err(
            String::from_str(
                "translate.input.sources/translate.sources cannot be combined with translate.output.target/translate.target, translate.output.path/translate.output, or CLI --target/--output; use in-place multi-language sources or invoke files individually",
            ),
        );
    }
    let source_lang: Option<String> = match &opts.source_lang {
        Some(l) => Some(l.clone()),
        None => match cfg {
            Some(c) => match c.resolved_source_lang() {
                Some(l) => Some(String::from_str(l)),
                None => None,
            },
            None => None,
        },
    };
    let mut runs: Vec<TranslateOptions> = Vec::new();
    let mut i: usize = 0;
    while i < sources.len()
        invariant
            i <= sources@.len(),
            runs@.len() == i,
            forall|j: int|
                0 <= j < i ==> is_invocation(
                    #[trigger] runs@[j],
                    *opts,
                    sources@[j]@,
                    opt_seq(target),
                    opt_seq(output),
                    opt_seq(source_lang),
                    opt_seq(config_path),
                ),
        decreases sources.len() - i,
    {
        runs.push(
            TranslateOptions {
                source: Some(sources[i].clone()),
                target: copy_opt_string(&target),
                output: copy_opt_string(&output),
                source_lang: copy_opt_string(&source_lang),
                target_langs: copy_strings(&opts.target_langs),
                status: copy_opt_string(&opts.status),
                provider: copy_opt_string(&opts.provider),
                model: copy_opt_string(&opts.model),
                concurrency: opts.concurrency,
                config: copy_opt_string(&config_path),
                use_tolgee: opts.use_tolgee,
                tolgee_config: copy_opt_string(&opts.tolgee_config),
                tolgee_namespaces: copy_strings(&opts.tolgee_namespaces),
                dry_run: opts.dry_run,
                strict: opts.strict,
                ui_mode: opts.ui_mode,
            },
        );
        i = i + 1;
    }
    Ok(runs)
}

/// The language an existing target is read with: the language of its path;
/// none unless its format needs one from outside; else the one requested
/// language, or the language of a separate single-language output path when
/// it agrees with the request. More than one request, or a disagreeing output
/// language, is refused.
pub open spec fn target_read_hint(
    target_path: Seq<char>,
    target_format: Option<crate::convert::FormatView>,
    target_path_language: Option<Seq<char>>,
    output_path: Seq<char>,
    output_format: crate::convert::FormatView,
    output_path_language: Option<Seq<char>>,
    requested: Seq<Seq<char>>,
) -> Result<Option<Seq<char>>, Seq<char>> {
    match target_path_language {
        Some(l) => Ok(Some(l)),
        None => if !(target_format matches Some(f) && crate::convert::single_language(f)) {
            Ok(None)
        } else if requested.len() != 1 {
            Err(
                "Existing single-language target '"@ + target_path
                    + "' has no locale identity and cannot be assigned unambiguously to requested target languages ["@
                    + crate::text::join(requested, ", "@)
                    + "]; use a locale-identifying target path or exactly one --target-lang"@,
            )
        } else {
            let req = requested[0];
            let separate = if !crate::paths::path_eq(target_path, output_path)
                && crate::convert::single_language(output_format) {
                output_path_language
            } else {
                None
            };
            match separate {
                Some(ol) => if crate::langid::lang_identity(req) == crate::langid::lang_identity(ol)
                    || (crate::langid::is_bare(req) && crate::langid::primary_of(req)
                    == crate::langid::primary_of(ol)) {
                    Ok(Some(ol))
                } else {
                    Err(
                        "Requested target language '"@ + req
                            + "' is incompatible with separate output path '"@ + output_path
                            + "' language '"@ + ol
                            + "'; refusing to retag the identity-less target '"@ + target_path
                            + "'"@,
                    )
                },
                None => Ok(Some(req)),
            }
        },
    }
}

pub fn resolve_existing_target_read_hint(
    target_path: &str,
    target_format: Option<&crate::convert::FormatType>,
    target_path_language: Option<&str>,
    output_path: &str,
    output_format: &crate::convert::FormatType,
    output_path_language: Option<&str>,
    requested_languages: &[String],
) -> (r: Result<Option<String>, String>)
    ensures
        crate::languages::opt_result_view(r) == target_read_hint(
            target_path@,
            match target_format {
                Some(f) => Some(f@),
                None => None,
            },
            crate::languages::opt_str_view(target_path_language),
            output_path@,
            output_format@,
            crate::languages::opt_str_view(output_path_language),
            strings_view(requested_languages@),
        ),
{
    if let Some(language) = target_path_language {
        return Ok(Some(String::from_str(language)));
    }
    let needs_language = match target_format {
        Some(f) => crate::convert::format_requires_external_language(f),
        None => false,
    };
    if !needs_language {
        return Ok(None);
    }
    if requested_languages.len() != 1 {
        let mut e = String::from_str("Existing single-language target '");
        e.append(target_path);
        e.append(
            "' has no locale identity and cannot be assigned unambiguously to requested target languages [",
        );
        let list = copy_strings_slice(requested_languages);
        e.append(crate::text::join_strings(&list, ", ").as_str());
        e.append("]; use a locale-identifying target path or exactly one --target-lang");
        return Err(e);
    }
    let requested = requested_languages[0].as_str();
    assert(strings_view(requested_languages@)[0] == requested@);
    let separate: Option<&str> = if !crate::paths::paths_equal(target_path, output_path)
        && crate::convert::format_requires_external_language(output_format) {
        output_path_language
    } else {
        None
    };
    if let Some(output_language) = separate {
        let compatible = crate::langid::language_identity_eq(requested, output_language) || (
        crate::langid::is_bare_language(requested) && crate::text::str_eq(
            crate::langid::primary_language(requested).as_str(),
            crate::langid::primary_language(output_language).as_str(),
        ));
        if !compatible {
            let mut e = String::from_str("Requested target language '");
            e.append(requested);
            e.append("' is incompatible with separate output path '");
            e.append(output_path);
            e.append("' language '");
            e.append(output_language);
            e.append("'; refusing to retag the identity-less target '");
            e.append(target_path);
            e.append("'");
            return Err(e);
        }
        return Ok(Some(String::from_str(output_language)));
    }
    Ok(Some(String::from_str(requested)))
}

fn copy_strings_slice(v: &[String]) -> (r: Vec<String>)
    ensures
        strings_view(r@) == strings_view(v@),
{
    let mut r: Vec<String> = Vec::new();
    let mut i: usize = 0;
    while i < v.len()
        invariant
            i <= v@.len(),
            r@.len() == i,
            forall|j: int| 0 <= j < i ==> (#[trigger] r@[j])@ == v@[j]@,
        decreases v.len() - i,
    {
        r.push(v[i].clone());
        i = i + 1;
    }
    assert(strings_view(r@) =~= strings_view(v@));
    r
}

} // verus!

//! The state of the interactive catalog browser: which keys are listed and
//! selected, the edit buffer and its cursor, one-level undo, and what each
//! command does to them.

use vstd::prelude::*;
use vstd::string::*;
use crate::convert::FormatType;
use crate::model::{
    added, find_key, find_language, key_unique_in, lemma_find_key_appended, lemma_find_key_bounds,
    lemma_find_key_same_ids, lemma_find_language_appended, lemma_find_language_bounds,
    lemma_find_language_same_languages, lemma_with_entry_lookup, lookup, opt_seq, removed, updated, with_appended,
    with_entry, without_entry, Codec, EntryStatus, EntryView, MetadataView, PluralCategory,
    ResourceView, Translation, TranslationView,
};
use crate::order::{sort_texts, sorted_unique, sorted_unique_texts, text_leq};
use crate::text::{chars_of, str_eq, string_from_chars, strings_view};

verus! {

broadcast use vstd::string::group_string_axioms;

/// What keyboard input currently means.
#[derive(Debug, Clone, Copy, PartialEq, Eq, Structural)]
pub enum InputMode {
    Normal,
    Search,
    Edit,
    ConfirmQuit,
    /// The help overlay; any key closes it.
    Help,
    /// Waiting for y/n to delete the selected key.
    ConfirmDelete,
}

/// Whether a status message reports a success or an error.
#[derive(Debug, Clone, Copy, PartialEq, Eq, Structural)]
pub enum StatusTone {
    Success,
    Error,
}

/// Which keys the list shows.
#[derive(Debug, Clone, Copy, PartialEq, Eq, Structural)]
pub enum FilterMode {
    /// Every key.
    All,
    /// The keys missing a translation in some language.
    Missing,
}

/// The one edit that can be undone.
#[derive(Debug, Clone)]
pub struct UndoEntry {
    pub key: String,
    pub lang: String,
    /// `None` when the translation was absent before the edit.
    pub old_value: Option<String>,
}

/// The browser's state.
pub struct App {
    pub codec: Codec,
    pub file_path: String,
    pub inferred_format: FormatType,
    /// Every key of the catalog, once each, in order.
    pub all_keys: Vec<String>,
    /// The keys the list shows.
    pub filtered_keys: Vec<String>,
    /// The catalog's languages, `en` first when present.
    pub languages: Vec<String>,
    /// The position of the highlighted key in `filtered_keys`.
    pub selected: Option<usize>,
    /// The position of the highlighted language.
    pub selected_lang_index: usize,
    pub search_query: String,
    /// The text being edited.
    pub edit_buffer: String,
    /// The cursor's position in `edit_buffer`, in characters.
    pub cursor_pos: usize,
    pub input_mode: InputMode,
    pub filter_mode: FilterMode,
    pub dirty: bool,
    pub status_message: Option<(String, StatusTone)>,
    pub undo_entry: Option<UndoEntry>,
    pub show_help: bool,
    /// The width of the key panel, in percent.
    pub split_ratio: u8,
    /// How far the selected translation is scrolled.
    pub translation_scroll: u16,
    pub confirm_delete: bool,
    /// Flipped on each move between keys, so that the panel is drawn anew.
    pub redraw_token: bool,
}

/// The value of the first plural form of category `c`.
pub open spec fn form_lookup(forms: Seq<(PluralCategory, Seq<char>)>, c: PluralCategory) -> Option<
    Seq<char>,
>
    decreases forms.len(),
{
    if forms.len() == 0 {
        None
    } else if forms[0].0 == c {
        Some(forms[0].1)
    } else {
        form_lookup(forms.drop_first(), c)
    }
}

/// The text shown for `key` in `lang`: a singular value, or the `other` form
/// of a plural; none for an empty or absent entry.
pub open spec fn translation_text(rs: Seq<ResourceView>, key: Seq<char>, lang: Seq<char>) -> Option<
    Seq<char>,
> {
    match lookup(rs, key, lang) {
        Some(e) => match e.value {
            TranslationView::Singular(s) => Some(s),
            TranslationView::Empty => None,
            TranslationView::Plural(_, forms) => form_lookup(forms, PluralCategory::Other),
        },
        None => None,
    }
}

/// Some language of `langs` has no text for `key`.
pub open spec fn key_missing(rs: Seq<ResourceView>, langs: Seq<Seq<char>>, key: Seq<char>) -> bool {
    exists|i: int| 0 <= i < langs.len() && translation_text(rs, key, #[trigger] langs[i]) is None
}

/// What `str::to_lowercase` gives (Unicode lowercase).
pub uninterp spec fn unicode_lowercase(s: Seq<char>) -> Seq<char>;

/// `str::to_lowercase`. The contract claims that the result is the name above.
#[verifier::external_body]
pub(crate) fn to_lowercase(s: &str) -> (r: String)
    ensures
        r@ == unicode_lowercase(s@),
{
    s.to_lowercase()
}

/// `needle` occurs in `hay`.
pub open spec fn contains_text(hay: Seq<char>, needle: Seq<char>) -> bool {
    exists|i: int| 0 <= i <= hay.len() - needle.len() && #[trigger] hay.subrange(i, i + needle.len()) == needle
}

/// Whether `needle` occurs in `hay` (`str::contains`).
pub fn str_contains(hay: &str, needle: &str) -> (r: bool)
    ensures
        r == contains_text(hay@, needle@),
{
    let h = chars_of(hay);
    let n = chars_of(needle);
    if n.len() > h.len() {
        return false;
    }
    if n.len() == 0 {
        assert(hay@.subrange(0int, 0int + needle@.len()) =~= needle@);
        return true;
    }
    let last = h.len() - n.len();
    let mut i: usize = 0;
    while i < last + 1
        invariant
            h@ == hay@,
            n@ == needle@,
            0 < n@.len() <= h@.len(),
            h@.len() <= usize::MAX,
            last == h@.len() - n@.len(),
            i <= last + 1,
            forall|k: int| 0 <= k < i ==> #[trigger] h@.subrange(k, k + n@.len()) != n@,
        decreases last + 1 - i,
    {
        let mut j: usize = 0;
        while j < n.len() && h[i + j] == n[j]
            invariant
                h@ == hay@,
                n@ == needle@,
                0 < n@.len() <= h@.len(),
                h@.len() <= usize::MAX,
                i <= last,
                last == h@.len() - n@.len(),
                j <= n@.len(),
                forall|k: int| 0 <= k < j ==> h@[i + k] == n@[k],
            decreases n.len() - j,
        {
            j = j + 1;
        }
        if j == n.len() {
            assert(h@.subrange(i as int, i + n@.len()) =~= n@);
            return true;
        }
        assert(h@.subrange(i as int, i + n@.len())[j as int] != n@[j as int]);
        i = i + 1;
    }
    false
}

impl App {
    /// The browser is well formed: the cursor stays in the edit buffer, the
    /// selection in the listed keys, and the panel width between 20 and 70.
    pub open spec fn wf(&self) -> bool {
        &&& self.cursor_pos <= self.edit_buffer@.len()
        &&& (self.selected matches Some(i) ==> i < self.filtered_keys@.len())
        &&& 20 <= self.split_ratio <= 70
        &&& (self.selected_lang_index == 0 || self.selected_lang_index < self.languages@.len())
    }

    /// The highlighted key.
    pub open spec fn key_at_selection(&self) -> Option<Seq<char>> {
        match self.selected {
            Some(i) => if i < self.filtered_keys@.len() {
                Some(self.filtered_keys@[i as int]@)
            } else {
                None
            },
            None => None,
        }
    }

    /// The highlighted language.
    pub open spec fn lang_at_selection(&self) -> Option<Seq<char>> {
        if self.selected_lang_index < self.languages@.len() {
            Some(self.languages@[self.selected_lang_index as int]@)
        } else {
            None
        }
    }

    pub fn selected_key(&self) -> (r: Option<&str>)
        ensures
            crate::languages::opt_str_view(r) == self.key_at_selection(),
    {
        match self.selected {
            Some(i) => if i < self.filtered_keys.len() {
                Some(self.filtered_keys[i].as_str())
            } else {
                None
            },
            None => None,
        }
    }

    pub fn selected_language(&self) -> (r: Option<&str>)
        ensures
            crate::languages::opt_str_view(r) == self.lang_at_selection(),
    {
        if self.selected_lang_index < self.languages.len() {
            Some(self.languages[self.selected_lang_index].as_str())
        } else {
            None
        }
    }

    /// The text shown for `key` in `lang`.
    pub fn get_translation(&self, key: &str, lang: &str) -> (r: Option<String>)
        ensures
            opt_seq(r) == translation_text(self.codec@, key@, lang@),
    {
        match self.codec.find_entry(key, lang) {
            Some(e) => match &e.value {
                Translation::Singular(s) => Some(s.clone()),
                Translation::Empty => None,
                Translation::Plural(p) => other_form(&p.forms),
            },
            None => None,
        }
    }

    /// Whether `key` lacks a translation in some language.
    pub fn has_missing(&self, key: &str) -> (r: bool)
        ensures
            r == key_missing(self.codec@, strings_view(self.languages@), key@),
    {
        let mut i: usize = 0;
        while i < self.languages.len()
            invariant
                i <= self.languages@.len(),
                forall|j: int|
                    0 <= j < i ==> translation_text(self.codec@, key@, #[trigger] self.languages@[j]@)
                        is Some,
            decreases self.languages.len() - i,
        {
            if self.get_translation(key, self.languages[i].as_str()).is_none() {
                assert(strings_view(self.languages@)[i as int] == self.languages@[i as int]@);
                return true;
            }
            i = i + 1;
        }
        assert forall|j: int| 0 <= j < strings_view(self.languages@).len() implies translation_text(
            self.codec@,
            key@,
            #[trigger] strings_view(self.languages@)[j],
        ) is Some by {
            assert(strings_view(self.languages@)[j] == self.languages@[j]@);
        }
        false
    }
}

fn other_form(forms: &Vec<(PluralCategory, String)>) -> (r: Option<String>)
    ensures
        opt_seq(r) == form_lookup(crate::model::forms_view(forms@), PluralCategory::Other),
{
    let ghost fv = crate::model::forms_view(forms@);
    let mut i: usize = 0;
    assert(fv.skip(0) =~= fv);
    while i < forms.len()
        invariant
            i <= forms@.len(),
            fv == crate::model::forms_view(forms@),
            form_lookup(fv, PluralCategory::Other) == form_lookup(fv.skip(i as int), PluralCategory::Other),
        decreases forms.len() - i,
    {
        assert(fv.skip(i as int).drop_first() =~= fv.skip(i + 1));
        assert(fv.skip(i as int)[0] == (forms@[i as int].0, forms@[i as int].1@));
        if forms[i].0 == PluralCategory::Other {
            return Some(forms[i].1.clone());
        }
        i = i + 1;
    }
    None
}

/// The contents of an undo step.
pub struct UndoView {
    pub key: Seq<char>,
    pub lang: Seq<char>,
    pub old_value: Option<Seq<char>>,
}

/// The browser's state, as values.
pub struct AppView {
    pub codec: Seq<ResourceView>,
    pub file_path: Seq<char>,
    pub inferred_format: crate::convert::FormatView,
    pub all_keys: Seq<Seq<char>>,
    pub filtered_keys: Seq<Seq<char>>,
    pub languages: Seq<Seq<char>>,
    pub selected: Option<usize>,
    pub selected_lang_index: usize,
    pub search_query: Seq<char>,
    pub edit_buffer: Seq<char>,
    pub cursor_pos: usize,
    pub input_mode: InputMode,
    pub filter_mode: FilterMode,
    pub dirty: bool,
    pub status_message: Option<(Seq<char>, StatusTone)>,
    pub undo_entry: Option<UndoView>,
    pub show_help: bool,
    pub split_ratio: u8,
    pub translation_scroll: u16,
    pub confirm_delete: bool,
    pub redraw_token: bool,
}

pub open spec fn status_view(m: Option<(String, StatusTone)>) -> Option<(Seq<char>, StatusTone)> {
    match m {
        Some((t, tone)) => Some((t@, tone)),
        None => None,
    }
}

pub open spec fn undo_view(u: Option<UndoEntry>) -> Option<UndoView> {
    match u {
        Some(e) => Some(UndoView { key: e.key@, lang: e.lang@, old_value: opt_seq(e.old_value) }),
        None => None,
    }
}

impl View for App {
    type V = AppView;

    open spec fn view(&self) -> AppView {
        AppView {
            codec: self.codec@,
            file_path: self.file_path@,
            inferred_format: self.inferred_format@,
            all_keys: strings_view(self.all_keys@),
            filtered_keys: strings_view(self.filtered_keys@),
            languages: strings_view(self.languages@),
            selected: self.selected,
            selected_lang_index: self.selected_lang_index,
            search_query: self.search_query@,
            edit_buffer: self.edit_buffer@,
            cursor_pos: self.cursor_pos,
            input_mode: self.input_mode,
            filter_mode: self.filter_mode,
            dirty: self.dirty,
            status_message: status_view(self.status_message),
            undo_entry: undo_view(self.undo_entry),
            show_help: self.show_help,
            split_ratio: self.split_ratio,
            translation_scroll: self.translation_scroll,
            confirm_delete: self.confirm_delete,
            redraw_token: self.redraw_token,
        }
    }
}

/// Whether the list shows `key`: in the missing-only mode the key must lack a
/// translation; and a non-empty search (compared in lowercase) must occur in
/// the key or in one of its translations.
pub open spec fn listed_key(a: AppView, key: Seq<char>) -> bool {
    let q = unicode_lowercase(a.search_query);
    &&& !(a.filter_mode == FilterMode::Missing && !key_missing(a.codec, a.languages, key))
    &&& (q.len() == 0 || contains_text(unicode_lowercase(key), q) || exists|i: int|
        0 <= i < a.languages.len() && (translation_text(a.codec, key, #[trigger] a.languages[i]) matches Some(
            v,
        ) && contains_text(unicode_lowercase(v), q)))
}

/// The listed keys among the first `n` keys, in order.
pub open spec fn listed_keys(a: AppView, keys: Seq<Seq<char>>) -> Seq<Seq<char>>
    decreases keys.len(),
{
    if keys.len() == 0 {
        keys
    } else if listed_key(a, keys.last()) {
        listed_keys(a, keys.drop_last()).push(keys.last())
    } else {
        listed_keys(a, keys.drop_last())
    }
}

/// The selection once the list has `len` keys: none for an empty list, else
/// the old position (the first when there was none), kept inside the list.
pub open spec fn clamped_selection(sel: Option<usize>, len: nat) -> Option<usize> {
    if len == 0 {
        None
    } else {
        let i = match sel {
            Some(i) => i as int,
            None => 0,
        };
        Some(
            (if i < len - 1 {
                i
            } else {
                len - 1
            }) as usize,
        )
    }
}

/// What switching the filter mode makes of the browser.
pub open spec fn cycled_filter(a: AppView) -> AppView {
    let mode = match a.filter_mode {
        FilterMode::All => FilterMode::Missing,
        FilterMode::Missing => FilterMode::All,
    };
    let mid = AppView { filter_mode: mode, ..a };
    AppView {
        filtered_keys: listed_keys(mid, mid.all_keys),
        selected: clamped_selection(a.selected, listed_keys(mid, mid.all_keys).len()),
        status_message: Some(
            (
                match mode {
                    FilterMode::All => "Filter: all keys"@,
                    FilterMode::Missing => "Filter: missing translations only"@,
                },
                StatusTone::Success,
            ),
        ),
        ..mid
    }
}

impl App {
    fn key_listed(&self, key: &str, query: &String) -> (r: bool)
        requires
            query@ == unicode_lowercase(self.search_query@),
        ensures
            r == listed_key(self@, key@),
    {
        if self.filter_mode == FilterMode::Missing && !self.has_missing(key) {
            return false;
        }
        if query.unicode_len() == 0 {
            return true;
        }
        if str_contains(to_lowercase(key).as_str(), query.as_str()) {
            return true;
        }
        let mut i: usize = 0;
        while i < self.languages.len()
            invariant
                i <= self.languages@.len(),
                query@ == unicode_lowercase(self.search_query@),
                query@.len() != 0,
                !(self.filter_mode == FilterMode::Missing && !key_missing(
                    self.codec@,
                    strings_view(self.languages@),
                    key@,
                )),
                forall|j: int|
                    0 <= j < i ==> !(translation_text(
                        self.codec@,
                        key@,
                        #[trigger] self.languages@[j]@,
                    ) matches Some(v) && contains_text(unicode_lowercase(v), query@)),
            decreases self.languages.len() - i,
        {
            assert(strings_view(self.languages@)[i as int] == self.languages@[i as int]@);
            match self.get_translation(key, self.languages[i].as_str()) {
                Some(v) => {
                    if str_contains(to_lowercase(v.as_str()).as_str(), query.as_str()) {
                        assert(translation_text(self@.codec, key@, self@.languages[i as int]) matches Some(
                            w,
                        ) && contains_text(unicode_lowercase(w), query@));
                        return true;
                    }
                },
                None => {},
            }
            i = i + 1;
        }
        assert forall|j: int| 0 <= j < self@.languages.len() implies !(translation_text(
            self@.codec,
            key@,
            #[trigger] self@.languages[j],
        ) matches Some(v) && contains_text(unicode_lowercase(v), query@)) by {
            assert(self@.languages[j] == self.languages@[j]@);
        }
        false
    }

    /// Lists the keys the filter mode and the search let through, and keeps
    /// the selection inside the list.
    pub fn apply_filter(&mut self)
        requires
            old(self).wf(),
        ensures
            final(self).wf(),
            final(self)@ == (AppView {
                filtered_keys: listed_keys(old(self)@, old(self)@.all_keys),
                selected: clamped_selection(
                    old(self).selected,
                    listed_keys(old(self)@, old(self)@.all_keys).len(),
                ),
                ..old(self)@
            }),
    {
        let query = to_lowercase(self.search_query.as_str());
        let ghost a = self@;
        let mut keys: Vec<String> = Vec::new();
        let mut i: usize = 0;
        assert(a.all_keys.take(0) =~= Seq::<Seq<char>>::empty());
        assert(strings_view(keys@) =~= Seq::<Seq<char>>::empty());
        while i < self.all_keys.len()
            invariant
                i <= self.all_keys@.len(),
                a == self@,
                query@ == unicode_lowercase(self.search_query@),
                strings_view(keys@) == listed_keys(a, a.all_keys.take(i as int)),
            decreases self.all_keys.len() - i,
        {
            assert(a.all_keys.take(i + 1).drop_last() =~= a.all_keys.take(i as int));
            assert(a.all_keys[i as int] == self.all_keys@[i as int]@);
            if self.key_listed(self.all_keys[i].as_str(), &query) {
                let ghost before = strings_view(keys@);
                keys.push(self.all_keys[i].clone());
                assert(strings_view(keys@) =~= before.push(a.all_keys[i as int]));
            }
            i = i + 1;
        }
        assert(a.all_keys.take(i as int) =~= a.all_keys);
        let n = keys.len();
        self.filtered_keys = keys;
        if n == 0 {
            self.selected = None;
        } else {
            let cur = match self.selected {
                Some(i) => i,
                None => 0,
            };
            self.selected = Some(if cur < n - 1 { cur } else { n - 1 });
        }
    }

    /// Switches between all keys and the keys missing a translation.
    pub fn cycle_filter_mode(&mut self)
        requires
            old(self).wf(),
        ensures
            final(self).wf(),
            final(self)@ == cycled_filter(old(self)@),
    {
        self.filter_mode = match self.filter_mode {
            FilterMode::All => FilterMode::Missing,
            FilterMode::Missing => FilterMode::All,
        };
        self.apply_filter();
        let label = match self.filter_mode {
            FilterMode::All => "Filter: all keys",
            FilterMode::Missing => "Filter: missing translations only",
        };
        self.status_message = Some((String::from_str(label), StatusTone::Success));
    }
}

/// The catalog once `text` is committed for `key` in `lang`: the existing
/// entry takes the text (its state kept), or a new translated entry is added.
pub open spec fn committed_codec(
    rs: Seq<ResourceView>,
    key: Seq<char>,
    lang: Seq<char>,
    text: Seq<char>,
) -> Seq<ResourceView> {
    if lookup(rs, key, lang) is Some {
        updated(rs, key, lang, TranslationView::Singular(text), None).unwrap()
    } else {
        added(rs, key, lang, TranslationView::Singular(text), None, Some(EntryStatus::Translated))
    }
}

/// What committing the edit buffer makes of the browser: with a key and a
/// language selected, the buffer is written to the catalog and the previous
/// text is kept for undo; the buffer is then emptied and the mode is normal.
pub open spec fn committed(a: AppView) -> AppView {
    let cleared = AppView {
        edit_buffer: Seq::empty(),
        cursor_pos: 0,
        input_mode: InputMode::Normal,
        ..a
    };
    match (sel_key(a), sel_lang(a)) {
        (Some(key), Some(lang)) => AppView {
            codec: committed_codec(a.codec, key, lang, a.edit_buffer),
            undo_entry: Some(
                UndoView { key, lang, old_value: translation_text(a.codec, key, lang) },
            ),
            dirty: true,
            status_message: Some(("Translation updated  [u] to undo"@, StatusTone::Success)),
            ..cleared
        },
        _ => cleared,
    }
}

/// The highlighted key.
pub open spec fn sel_key(a: AppView) -> Option<Seq<char>> {
    match a.selected {
        Some(i) => if i < a.filtered_keys.len() {
            Some(a.filtered_keys[i as int])
        } else {
            None
        },
        None => None,
    }
}

/// The highlighted language.
pub open spec fn sel_lang(a: AppView) -> Option<Seq<char>> {
    if a.selected_lang_index < a.languages.len() {
        Some(a.languages[a.selected_lang_index as int])
    } else {
        None
    }
}

/// What entering edit mode makes of the browser.
pub open spec fn editing(a: AppView) -> AppView {
    match (sel_key(a), sel_lang(a)) {
        (Some(key), Some(lang)) => {
            let text = match translation_text(a.codec, key, lang) {
                Some(t) => t,
                None => Seq::empty(),
            };
            AppView {
                edit_buffer: text,
                cursor_pos: text.len() as usize,
                input_mode: InputMode::Edit,
                ..a
            }
        },
        _ => a,
    }
}

/// The catalog once an undo step is applied: the old text written back, or
/// the entry removed when there was none; `None` when the entry is gone.
pub open spec fn undone_codec(rs: Seq<ResourceView>, u: UndoView) -> Option<Seq<ResourceView>> {
    match u.old_value {
        Some(v) => updated(rs, u.key, u.lang, TranslationView::Singular(v), None),
        None => removed(rs, u.key, u.lang),
    }
}

/// What undo makes of the browser.
pub open spec fn undone(a: AppView) -> AppView {
    match a.undo_entry {
        None => AppView { status_message: Some(("Nothing to undo"@, StatusTone::Error)), ..a },
        Some(u) => match undone_codec(a.codec, u) {
            Some(next) => AppView {
                codec: next,
                undo_entry: None,
                dirty: true,
                status_message: Some(("Undo applied"@, StatusTone::Success)),
                ..a
            },
            None => AppView {
                undo_entry: None,
                status_message: Some(
                    (
                        "Undo failed: "@ + crate::model::not_found_message(u.key, u.lang),
                        StatusTone::Error,
                    ),
                ),
                ..a
            },
        },
    }
}

impl App {
    /// Starts editing the selected translation, the cursor at its end.
    pub fn enter_edit_mode(&mut self)
        requires
            old(self).wf(),
        ensures
            final(self).wf(),
            final(self)@ == editing(old(self)@),
    {
        let key = match self.selected_key() {
            Some(k) => String::from_str(k),
            None => return,
        };
        let lang = match self.selected_language() {
            Some(l) => String::from_str(l),
            None => return,
        };
        let text = match self.get_translation(key.as_str(), lang.as_str()) {
            Some(t) => t,
            None => String::new(),
        };
        self.cursor_pos = text.unicode_len();
        self.edit_buffer = text;
        self.input_mode = InputMode::Edit;
    }

    /// Writes the edit buffer to the catalog for the selected key and
    /// language, keeping the previous text for undo.
    pub fn commit_edit(&mut self)
        requires
            old(self).wf(),
        ensures
            final(self).wf(),
            final(self)@ == committed(old(self)@),
    {
        let key = match self.selected_key() {
            Some(k) => Some(String::from_str(k)),
            None => None,
        };
        let lang = match self.selected_language() {
            Some(l) => Some(String::from_str(l)),
            None => None,
        };
        if let (Some(key), Some(lang)) = (key, lang) {
            let old_value = self.get_translation(key.as_str(), lang.as_str());
            let value = self.edit_buffer.clone();
            let result = if self.codec.has_entry(key.as_str(), lang.as_str()) {
                self.codec.update_translation(
                    key.as_str(),
                    lang.as_str(),
                    Translation::Singular(value),
                    None,
                )
            } else {
                self.codec.add_entry(
                    key.as_str(),
                    lang.as_str(),
                    Translation::Singular(value),
                    None,
                    Some(EntryStatus::Translated),
                )
            };
            self.undo_entry = Some(UndoEntry { key, lang, old_value });
            match result {
                Ok(()) => {
                    self.dirty = true;
                    self.status_message = Some(
                        (String::from_str("Translation updated  [u] to undo"), StatusTone::Success),
                    );
                },
                Err(e) => {
                    let mut m = String::from_str("Error: ");
                    m.append(e.as_str());
                    self.status_message = Some((m, StatusTone::Error));
                },
            }
        }
        self.edit_buffer = String::new();
        self.cursor_pos = 0;
        self.input_mode = InputMode::Normal;
    }

    /// Leaves edit mode without writing.
    pub fn cancel_edit(&mut self)
        requires
            old(self).wf(),
        ensures
            final(self).wf(),
            final(self)@ == (AppView {
                edit_buffer: Seq::empty(),
                cursor_pos: 0,
                input_mode: InputMode::Normal,
                ..old(self)@
            }),
    {
        self.edit_buffer = String::new();
        self.cursor_pos = 0;
        self.input_mode = InputMode::Normal;
    }

    /// Undoes the last committed edit.
    pub fn undo(&mut self)
        requires
            old(self).wf(),
        ensures
            final(self).wf(),
            final(self)@ == undone(old(self)@),
    {
        let entry = match self.undo_entry.take() {
            Some(e) => e,
            None => {
                self.status_message = Some((String::from_str("Nothing to undo"), StatusTone::Error));
                return;
            },
        };
        let result = match &entry.old_value {
            Some(v) => self.codec.update_translation(
                entry.key.as_str(),
                entry.lang.as_str(),
                Translation::Singular(v.clone()),
                None,
            ),
            None => self.codec.remove_entry(entry.key.as_str(), entry.lang.as_str()),
        };
        match result {
            Ok(()) => {
                self.dirty = true;
                self.status_message = Some((String::from_str("Undo applied"), StatusTone::Success));
            },
            Err(e) => {
                let mut m = String::from_str("Undo failed: ");
                m.append(e.as_str());
                self.status_message = Some((m, StatusTone::Error));
            },
        }
    }
}

/// Deleting backward right after inserting a character gives the editor back
/// as it was: the same edit buffer and cursor, and nothing else changed.
pub proof fn lemma_backspace_undoes_insert(a: AppView, ch: char)
    requires
        a.cursor_pos <= a.edit_buffer.len(),
        a.edit_buffer.len() < usize::MAX,
    ensures
        backspaced(inserted(a, ch)) == a,
{
    assert(a.edit_buffer.insert(a.cursor_pos as int, ch).remove(a.cursor_pos as int) =~= a.edit_buffer);
}

/// Committing an edit and undoing it gives the selected key back the text it
/// had in the selected language, when the resource of that language holds
/// the key at most once.
pub proof fn lemma_undo_restores_translation(a: AppView)
    requires
        sel_key(a) is Some,
        sel_lang(a) is Some,
        key_unique_in(a.codec, sel_key(a).unwrap(), sel_lang(a).unwrap()),
    ensures
        translation_text(undone(committed(a)).codec, sel_key(a).unwrap(), sel_lang(a).unwrap())
            == translation_text(a.codec, sel_key(a).unwrap(), sel_lang(a).unwrap()),
        undone(committed(a)).status_message == Some(("Undo applied"@, StatusTone::Success)),
{
    let key = sel_key(a).unwrap();
    let lang = sel_lang(a).unwrap();
    let rs = a.codec;
    let c = committed(a);
    let rs1 = c.codec;
    let buf = TranslationView::Singular(a.edit_buffer);
    lemma_find_language_bounds(rs, lang);
    match find_language(rs, lang) {
        Some(i) => {
            lemma_find_key_bounds(rs[i].entries, key);
            match find_key(rs[i].entries, key) {
                Some(j) => {
                    let old_e = rs[i].entries[j];
                    let e1 = EntryView {
                        id: old_e.id,
                        value: buf,
                        comment: old_e.comment,
                        status: old_e.status,
                    };
                    assert(rs1 == with_entry(rs, i, j, e1));
                    lemma_with_entry_lookup(rs, key, lang, i, j, e1);
                    match translation_text(rs, key, lang) {
                        Some(v) => {
                            let e2 = EntryView {
                                id: e1.id,
                                value: TranslationView::Singular(v),
                                comment: e1.comment,
                                status: e1.status,
                            };
                            lemma_with_entry_lookup(rs1, key, lang, i, j, e2);
                        },
                        None => {
                            let rs2 = without_entry(rs1, i, j);
                            lemma_find_language_same_languages(rs2, rs1, lang);
                            let es2 = rs2[i].entries;
                            assert forall|k: int| 0 <= k < es2.len() implies (#[trigger] es2[k]).id
                                != key by {
                                if k < j {
                                    assert(es2[k] == rs[i].entries[k]);
                                } else {
                                    assert(es2[k] == rs[i].entries[k + 1]);
                                }
                            }
                            lemma_find_key_bounds(es2, key);
                        },
                    }
                },
                None => {
                    let e = EntryView {
                        id: key,
                        value: buf,
                        comment: None,
                        status: EntryStatus::Translated,
                    };
                    assert(rs1 == with_appended(rs, i, e));
                    lemma_find_language_same_languages(rs1, rs, lang);
                    lemma_find_key_appended(rs[i].entries, e, key);
                    let n = rs[i].entries.len() as int;
                    let rs2 = without_entry(rs1, i, n);
                    assert(rs2[i].entries =~= rs[i].entries);
                    lemma_find_language_same_languages(rs2, rs, lang);
                },
            }
        },
        None => {
            let e = EntryView {
                id: key,
                value: buf,
                comment: None,
                status: EntryStatus::Translated,
            };
            let r = ResourceView {
                metadata: MetadataView { language: lang, domain: Seq::empty(), custom: Seq::empty() },
                entries: seq![e],
            };
            assert(rs1 == rs.push(r));
            lemma_find_language_appended(rs, r, lang);
            assert(find_key(seq![e], key) == Some(0int));
            let n = rs.len() as int;
            let rs2 = without_entry(rs1, n, 0);
            lemma_find_language_same_languages(rs2, rs1, lang);
            assert(rs2[n].entries =~= Seq::<EntryView>::empty());
        },
    }
}

/// The cursor moved one character left, when it can.
pub open spec fn moved_left(a: AppView) -> AppView {
    if a.cursor_pos > 0 {
        AppView { cursor_pos: (a.cursor_pos - 1) as usize, ..a }
    } else {
        a
    }
}

/// The cursor moved one character right, when it can.
pub open spec fn moved_right(a: AppView) -> AppView {
    if a.cursor_pos < a.edit_buffer.len() {
        AppView { cursor_pos: (a.cursor_pos + 1) as usize, ..a }
    } else {
        a
    }
}

/// `ch` typed at the cursor.
pub open spec fn inserted(a: AppView, ch: char) -> AppView {
    AppView {
        edit_buffer: a.edit_buffer.insert(a.cursor_pos as int, ch),
        cursor_pos: (a.cursor_pos + 1) as usize,
        ..a
    }
}

/// The character before the cursor deleted.
pub open spec fn backspaced(a: AppView) -> AppView {
    if a.cursor_pos == 0 {
        a
    } else {
        AppView {
            edit_buffer: a.edit_buffer.remove(a.cursor_pos - 1),
            cursor_pos: (a.cursor_pos - 1) as usize,
            ..a
        }
    }
}

/// The character at the cursor deleted.
pub open spec fn deleted_forward(a: AppView) -> AppView {
    if a.cursor_pos >= a.edit_buffer.len() {
        a
    } else {
        AppView { edit_buffer: a.edit_buffer.remove(a.cursor_pos as int), ..a }
    }
}

/// The text of the first language copied into the edit buffer, when the
/// selected key has one there.
pub open spec fn copied_from_source(a: AppView) -> AppView {
    match sel_key(a) {
        Some(key) => {
            let source = if a.languages.len() > 0 {
                a.languages[0]
            } else {
                Seq::empty()
            };
            match translation_text(a.codec, key, source) {
                Some(v) => AppView { edit_buffer: v, cursor_pos: v.len() as usize, ..a },
                None => a,
            }
        },
        None => a,
    }
}

fn insert_char(s: &String, at: usize, ch: char) -> (r: String)
    requires
        at <= s@.len(),
    ensures
        r@ == s@.insert(at as int, ch),
{
    let v = chars_of(s.as_str());
    let mut w: Vec<char> = Vec::new();
    let mut i: usize = 0;
    while i < v.len()
        invariant
            i <= v@.len(),
            at <= v@.len(),
            w@ == (if i <= at {
                v@.take(i as int)
            } else {
                v@.take(at as int).push(ch) + v@.subrange(at as int, i as int)
            }),
        decreases v.len() - i,
    {
        if i == at {
            w.push(ch);
        }
        w.push(v[i]);
        i = i + 1;
        assert(w@ =~= (if i <= at {
            v@.take(i as int)
        } else {
            v@.take(at as int).push(ch) + v@.subrange(at as int, i as int)
        }));
    }
    if at == v.len() {
        w.push(ch);
    }
    assert(w@ =~= v@.insert(at as int, ch));
    string_from_chars(w.as_slice())
}

fn remove_char(s: &String, at: usize) -> (r: String)
    requires
        at < s@.len(),
    ensures
        r@ == s@.remove(at as int),
{
    let v = chars_of(s.as_str());
    let mut w: Vec<char> = Vec::new();
    let mut i: usize = 0;
    while i < v.len()
        invariant
            i <= v@.len(),
            at < v@.len(),
            w@ == (if i <= at {
                v@.take(i as int)
            } else {
                v@.take(at as int) + v@.subrange(at + 1, i as int)
            }),
        decreases v.len() - i,
    {
        if i != at {
            w.push(v[i]);
        }
        i = i + 1;
        assert(w@ =~= (if i <= at {
            v@.take(i as int)
        } else {
            v@.take(at as int) + v@.subrange(at + 1, i as int)
        }));
    }
    assert(w@ =~= v@.remove(at as int));
    string_from_chars(w.as_slice())
}

impl App {
    pub fn cursor_move_left(&mut self)
        requires
            old(self).wf(),
        ensures
            final(self).wf(),
            final(self)@ == moved_left(old(self)@),
    {
        if self.cursor_pos > 0 {
            self.cursor_pos = self.cursor_pos - 1;
        }
    }

    pub fn cursor_move_right(&mut self)
        requires
            old(self).wf(),
        ensures
            final(self).wf(),
            final(self)@ == moved_right(old(self)@),
    {
        let len = self.edit_buffer.unicode_len();
        if self.cursor_pos < len {
            self.cursor_pos = self.cursor_pos + 1;
        }
    }

    pub fn cursor_home(&mut self)
        requires
            old(self).wf(),
        ensures
            final(self).wf(),
            final(self)@ == (AppView { cursor_pos: 0, ..old(self)@ }),
    {
        self.cursor_pos = 0;
    }

    pub fn cursor_end(&mut self)
        requires
            old(self).wf(),
        ensures
            final(self).wf(),
            final(self)@ == (AppView {
                cursor_pos: old(self)@.edit_buffer.len() as usize,
                ..old(self)@
            }),
    {
        self.cursor_pos = self.edit_buffer.unicode_len();
    }

    /// Types `ch` at the cursor.
    pub fn edit_insert(&mut self, ch: char)
        requires
            old(self).wf(),
            old(self)@.edit_buffer.len() < usize::MAX,
        ensures
            final(self).wf(),
            final(self)@ == inserted(old(self)@, ch),
    {
        let next = insert_char(&self.edit_buffer, self.cursor_pos, ch);
        self.edit_buffer = next;
        self.cursor_pos = self.cursor_pos + 1;
    }

    /// Deletes the character before the cursor.
    pub fn edit_backspace(&mut self)
        requires
            old(self).wf(),
        ensures
            final(self).wf(),
            final(self)@ == backspaced(old(self)@),
    {
        if self.cursor_pos == 0 {
            return;
        }
        let next = remove_char(&self.edit_buffer, self.cursor_pos - 1);
        self.edit_buffer = next;
        self.cursor_pos = self.cursor_pos - 1;
    }

    /// Deletes the character at the cursor.
    pub fn edit_delete_forward(&mut self)
        requires
            old(self).wf(),
        ensures
            final(self).wf(),
            final(self)@ == deleted_forward(old(self)@),
    {
        let len = self.edit_buffer.unicode_len();
        if self.cursor_pos >= len {
            return;
        }
        let next = remove_char(&self.edit_buffer, self.cursor_pos);
        self.edit_buffer = next;
    }

    /// Copies the first language's text of the selected key into the edit
    /// buffer.
    pub fn copy_from_source_lang(&mut self)
        requires
            old(self).wf(),
        ensures
            final(self).wf(),
            final(self)@ == copied_from_source(old(self)@),
    {
        let key = match self.selected_key() {
            Some(k) => String::from_str(k),
            None => return,
        };
        let source = if self.languages.len() > 0 {
            self.languages[0].clone()
        } else {
            String::new()
        };
        if let Some(v) = self.get_translation(key.as_str(), source.as_str()) {
            self.cursor_pos = v.unicode_len();
            self.edit_buffer = v;
        }
    }
}

/// The browser after moving to the key at position `idx`: the translation
/// scroll reset, the status cleared, the panel marked for a redraw.
pub open spec fn moved_to(a: AppView, idx: int) -> AppView {
    AppView {
        selected: Some(idx as usize),
        translation_scroll: 0,
        status_message: None,
        redraw_token: !a.redraw_token,
        ..a
    }
}

/// The position of the current selection, the first when there is none.
pub open spec fn sel_or_first(a: AppView) -> int {
    match a.selected {
        Some(i) => i as int,
        None => 0,
    }
}

pub open spec fn min_int(x: int, y: int) -> int {
    if x < y {
        x
    } else {
        y
    }
}

/// Moves `step` keys down, stopping at the last one.
pub open spec fn paged_down(a: AppView, step: int) -> AppView {
    if a.filtered_keys.len() == 0 {
        a
    } else {
        moved_to(
            a,
            match a.selected {
                Some(i) => min_int(i + step, a.filtered_keys.len() - 1),
                None => 0,
            },
        )
    }
}

/// Moves `step` keys up, stopping at the first one.
pub open spec fn paged_up(a: AppView, step: int) -> AppView {
    if a.filtered_keys.len() == 0 {
        a
    } else {
        moved_to(
            a,
            match a.selected {
                Some(i) => if i >= step {
                    i - step
                } else {
                    0
                },
                None => 0,
            },
        )
    }
}

/// The first position, counting `d` = 1, 2, … steps onwards from `start`
/// and wrapping around, whose key lacks a translation; `len` steps at most.
pub open spec fn missing_forward(a: AppView, start: int, d: int) -> Option<int>
    decreases a.filtered_keys.len() + 1 - d,
{
    let len = a.filtered_keys.len() as int;
    if d > len || d < 1 {
        None
    } else {
        let idx = (start + d) % len;
        if key_missing(a.codec, a.languages, a.filtered_keys[idx]) {
            Some(idx)
        } else {
            missing_forward(a, start, d + 1)
        }
    }
}

/// The same, counting backwards.
pub open spec fn missing_backward(a: AppView, start: int, d: int) -> Option<int>
    decreases a.filtered_keys.len() + 1 - d,
{
    let len = a.filtered_keys.len() as int;
    if d > len || d < 1 {
        None
    } else {
        let idx = (start + len - d) % len;
        if key_missing(a.codec, a.languages, a.filtered_keys[idx]) {
            Some(idx)
        } else {
            missing_backward(a, start, d + 1)
        }
    }
}

pub open spec fn jumped_to_missing(a: AppView, found: Option<int>) -> AppView {
    if a.filtered_keys.len() == 0 {
        a
    } else {
        match found {
            Some(idx) => moved_to(a, idx),
            None => AppView {
                status_message: Some(("No missing translations found"@, StatusTone::Error)),
                ..a
            },
        }
    }
}

impl App {
    fn move_to(&mut self, idx: usize)
        requires
            old(self).wf(),
            idx < old(self).filtered_keys@.len(),
        ensures
            final(self).wf(),
            final(self)@ == moved_to(old(self)@, idx as int),
    {
        self.selected = Some(idx);
        self.translation_scroll = 0;
        self.status_message = None;
        self.redraw_token = !self.redraw_token;
    }

    pub fn key_next(&mut self)
        requires
            old(self).wf(),
        ensures
            final(self).wf(),
            final(self)@ == paged_down(old(self)@, 1),
    {
        if self.filtered_keys.len() == 0 {
            return;
        }
        let len = self.filtered_keys.len();
        let next = match self.selected {
            Some(i) => if i + 1 < len - 1 { i + 1 } else { len - 1 },
            None => 0,
        };
        self.move_to(next);
    }

    pub fn key_prev(&mut self)
        requires
            old(self).wf(),
        ensures
            final(self).wf(),
            final(self)@ == paged_up(old(self)@, 1),
    {
        if self.filtered_keys.len() == 0 {
            return;
        }
        let prev = match self.selected {
            Some(i) => if i >= 1 { i - 1 } else { 0 },
            None => 0,
        };
        self.move_to(prev);
    }

    pub fn key_next_page(&mut self, page_size: usize)
        requires
            old(self).wf(),
            old(self).selected matches Some(i) ==> i + page_size <= usize::MAX,
        ensures
            final(self).wf(),
            final(self)@ == paged_down(old(self)@, page_size as int),
    {
        if self.filtered_keys.len() == 0 {
            return;
        }
        let len = self.filtered_keys.len();
        let next = match self.selected {
            Some(i) => if i + page_size < len - 1 { i + page_size } else { len - 1 },
            None => 0,
        };
        self.move_to(next);
    }

    pub fn key_prev_page(&mut self, page_size: usize)
        requires
            old(self).wf(),
        ensures
            final(self).wf(),
            final(self)@ == paged_up(old(self)@, page_size as int),
    {
        if self.filtered_keys.len() == 0 {
            return;
        }
        let prev = match self.selected {
            Some(i) => if i >= page_size { i - page_size } else { 0 },
            None => 0,
        };
        self.move_to(prev);
    }

    pub fn key_jump_top(&mut self)
        requires
            old(self).wf(),
        ensures
            final(self).wf(),
            final(self)@ == (if old(self)@.filtered_keys.len() == 0 {
                old(self)@
            } else {
                moved_to(old(self)@, 0)
            }),
    {
        if self.filtered_keys.len() > 0 {
            self.move_to(0);
        }
    }

    pub fn key_jump_bottom(&mut self)
        requires
            old(self).wf(),
        ensures
            final(self).wf(),
            final(self)@ == (if old(self)@.filtered_keys.len() == 0 {
                old(self)@
            } else {
                moved_to(old(self)@, old(self)@.filtered_keys.len() - 1)
            }),
    {
        if self.filtered_keys.len() > 0 {
            let last = self.filtered_keys.len() - 1;
            self.move_to(last);
        }
    }

    /// Jumps to the next key, wrapping around, that lacks a translation.
    pub fn next_missing(&mut self)
        requires
            old(self).wf(),
            old(self).filtered_keys@.len() <= usize::MAX / 2,
        ensures
            final(self).wf(),
            final(self)@ == jumped_to_missing(
                old(self)@,
                missing_forward(old(self)@, sel_or_first(old(self)@), 1),
            ),
    {
        let start = match self.selected {
            Some(i) => i,
            None => 0,
        };
        let len = self.filtered_keys.len();
        if len == 0 {
            return;
        }
        let ghost a = self@;
        let mut delta: usize = 1;
        while delta <= len
            invariant
                a == self@,
                a == old(self)@,
                self.wf(),
                len == self.filtered_keys@.len(),
                0 < len <= usize::MAX / 2,
                start == sel_or_first(a),
                start < len,
                1 <= delta <= len + 1,
                missing_forward(a, start as int, 1) == missing_forward(a, start as int, delta as int),
            decreases len + 1 - delta,
        {
            let idx = (start + delta) % len;
            assert(a.filtered_keys[idx as int] == self.filtered_keys@[idx as int]@);
            if self.has_missing(self.filtered_keys[idx].as_str()) {
                assert(missing_forward(a, start as int, delta as int) == Some(idx as int));
                self.move_to(idx);
                return;
            }
            delta = delta + 1;
        }
        self.status_message = Some(
            (String::from_str("No missing translations found"), StatusTone::Error),
        );
    }

    /// Jumps to the previous key, wrapping around, that lacks a translation.
    pub fn prev_missing(&mut self)
        requires
            old(self).wf(),
            old(self).filtered_keys@.len() <= usize::MAX / 2,
        ensures
            final(self).wf(),
            final(self)@ == jumped_to_missing(
                old(self)@,
                missing_backward(old(self)@, sel_or_first(old(self)@), 1),
            ),
    {
        let start = match self.selected {
            Some(i) => i,
            None => 0,
        };
        let len = self.filtered_keys.len();
        if len == 0 {
            return;
        }
        let ghost a = self@;
        let mut delta: usize = 1;
        while delta <= len
            invariant
                a == self@,
                a == old(self)@,
                self.wf(),
                len == self.filtered_keys@.len(),
                0 < len <= usize::MAX / 2,
                start == sel_or_first(a),
                start < len,
                1 <= delta <= len + 1,
                missing_backward(a, start as int, 1) == missing_backward(
                    a,
                    start as int,
                    delta as int,
                ),
            decreases len + 1 - delta,
        {
            let idx = (start + len - delta) % len;
            assert(a.filtered_keys[idx as int] == self.filtered_keys@[idx as int]@);
            if self.has_missing(self.filtered_keys[idx].as_str()) {
                assert(missing_backward(a, start as int, delta as int) == Some(idx as int));
                self.move_to(idx);
                return;
            }
            delta = delta + 1;
        }
        self.status_message = Some(
            (String::from_str("No missing translations found"), StatusTone::Error),
        );
    }

    pub fn lang_next(&mut self)
        requires
            old(self).wf(),
        ensures
            final(self).wf(),
            final(self)@ == (if old(self)@.languages.len() == 0 {
                old(self)@
            } else {
                AppView {
                    selected_lang_index: min_int(
                        old(self).selected_lang_index + 1,
                        old(self)@.languages.len() - 1,
                    ) as usize,
                    translation_scroll: 0,
                    ..old(self)@
                }
            }),
    {
        if self.languages.len() == 0 {
            return;
        }
        let last = self.languages.len() - 1;
        self.selected_lang_index = if self.selected_lang_index + 1 < last {
            self.selected_lang_index + 1
        } else {
            last
        };
        self.translation_scroll = 0;
    }

    pub fn lang_prev(&mut self)
        requires
            old(self).wf(),
        ensures
            final(self).wf(),
            final(self)@ == (if old(self).selected_lang_index > 0 {
                AppView {
                    selected_lang_index: (old(self).selected_lang_index - 1) as usize,
                    translation_scroll: 0,
                    ..old(self)@
                }
            } else {
                old(self)@
            }),
    {
        if self.selected_lang_index > 0 {
            self.selected_lang_index = self.selected_lang_index - 1;
            self.translation_scroll = 0;
        }
    }

    /// Widens the key panel by 2%, up to 70%.
    pub fn split_wider(&mut self)
        requires
            old(self).wf(),
        ensures
            final(self).wf(),
            final(self)@ == (AppView {
                split_ratio: min_int(old(self).split_ratio + 2, 70) as u8,
                ..old(self)@
            }),
    {
        self.split_ratio = if self.split_ratio + 2 < 70 { self.split_ratio + 2 } else { 70 };
    }

    /// Narrows the key panel by 2%, down to 20%.
    pub fn split_narrower(&mut self)
        requires
            old(self).wf(),
        ensures
            final(self).wf(),
            final(self)@ == (AppView {
                split_ratio: (if old(self).split_ratio - 2 > 20 {
                    old(self).split_ratio - 2
                } else {
                    20
                }) as u8,
                ..old(self)@
            }),
    {
        let s = if self.split_ratio >= 2 { self.split_ratio - 2 } else { 0 };
        self.split_ratio = if s > 20 { s } else { 20 };
    }

    pub fn translation_scroll_down(&mut self)
        requires
            old(self).wf(),
        ensures
            final(self).wf(),
            final(self)@ == (AppView {
                translation_scroll: (if old(self).translation_scroll < u16::MAX {
                    old(self).translation_scroll + 1
                } else {
                    u16::MAX as int
                }) as u16,
                ..old(self)@
            }),
    {
        if self.translation_scroll < u16::MAX {
            self.translation_scroll = self.translation_scroll + 1;
        }
    }

    pub fn translation_scroll_up(&mut self)
        requires
            old(self).wf(),
        ensures
            final(self).wf(),
            final(self)@ == (AppView {
                translation_scroll: (if old(self).translation_scroll > 0 {
                    old(self).translation_scroll - 1
                } else {
                    0
                }) as u16,
                ..old(self)@
            }),
    {
        if self.translation_scroll > 0 {
            self.translation_scroll = self.translation_scroll - 1;
        }
    }

    /// Takes in the outcome of writing the catalog: on success the changes
    /// count as saved; a failure is reported as a save failure.
    pub fn finish_save(&mut self, written: Result<(), String>) -> (r: Result<(), String>)
        requires
            old(self).wf(),
        ensures
            final(self).wf(),
            match written {
                Ok(()) => r is Ok && final(self)@ == (AppView {
                    dirty: false,
                    status_message: Some(("Saved successfully"@, StatusTone::Success)),
                    ..old(self)@
                }),
                Err(e) => r matches Err(m) && m@ == "Save failed: "@ + e@ && final(self)@ == old(
                    self,
                )@,
            },
    {
        match written {
            Ok(()) => {
                self.dirty = false;
                self.status_message = Some(
                    (String::from_str("Saved successfully"), StatusTone::Success),
                );
                Ok(())
            },
            Err(e) => {
                let mut m = String::from_str("Save failed: ");
                m.append(e.as_str());
                Err(m)
            },
        }
    }
}

/// The catalog with `key` removed from the resource of each of the first
/// `n` languages that holds it.
pub open spec fn without_key(rs: Seq<ResourceView>, key: Seq<char>, langs: Seq<Seq<char>>, n: int) -> Seq<
    ResourceView,
>
    decreases n,
{
    if n <= 0 {
        rs
    } else {
        let prev = without_key(rs, key, langs, n - 1);
        if lookup(prev, key, langs[n - 1]) is Some {
            removed(prev, key, langs[n - 1]).unwrap()
        } else {
            prev
        }
    }
}

/// The keys other than `key`, in order.
pub open spec fn keys_without(keys: Seq<Seq<char>>, key: Seq<char>) -> Seq<Seq<char>>
    decreases keys.len(),
{
    if keys.len() == 0 {
        keys
    } else if keys.last() == key {
        keys_without(keys.drop_last(), key)
    } else {
        keys_without(keys.drop_last(), key).push(keys.last())
    }
}

/// What deleting the selected key makes of the browser: the key leaves the
/// resource of every language, and the key list; the list is filtered anew.
pub open spec fn key_deleted(a: AppView) -> AppView {
    match sel_key(a) {
        None => a,
        Some(key) => {
            let mid = AppView {
                codec: without_key(a.codec, key, a.languages, a.languages.len() as int),
                all_keys: keys_without(a.all_keys, key),
                ..a
            };
            let filtered = listed_keys(mid, mid.all_keys);
            AppView {
                filtered_keys: filtered,
                selected: clamped_selection(a.selected, filtered.len()),
                dirty: true,
                status_message: Some(("Deleted key '"@ + key + "'"@, StatusTone::Success)),
                redraw_token: !a.redraw_token,
                confirm_delete: false,
                input_mode: InputMode::Normal,
                ..mid
            }
        },
    }
}

impl App {
    /// Deletes the selected key from every language and from the key list.
    pub fn confirm_delete_key(&mut self)
        requires
            old(self).wf(),
        ensures
            final(self).wf(),
            final(self)@ == key_deleted(old(self)@),
    {
        let key = match self.selected_key() {
            Some(k) => String::from_str(k),
            None => return,
        };
        let ghost a = self@;
        let mut i: usize = 0;
        while i < self.languages.len()
            invariant
                i <= self.languages@.len(),
                self.languages@ == old(self).languages@,
                self.wf(),
                a == old(self)@,
                key@ == sel_key(a).unwrap(),
                self@ == (AppView {
                    codec: without_key(a.codec, key@, a.languages, i as int),
                    ..a
                }),
            decreases self.languages.len() - i,
        {
            let lang = self.languages[i].clone();
            assert(a.languages[i as int] == lang@);
            if self.codec.has_entry(key.as_str(), lang.as_str()) {
                let _ = self.codec.remove_entry(key.as_str(), lang.as_str());
            }
            i = i + 1;
        }
        let ghost before = self@;
        let mut kept: Vec<String> = Vec::new();
        let mut k: usize = 0;
        assert(before.all_keys.take(0) =~= Seq::<Seq<char>>::empty());
        assert(strings_view(kept@) =~= Seq::<Seq<char>>::empty());
        while k < self.all_keys.len()
            invariant
                k <= self.all_keys@.len(),
                before == self@,
                strings_view(kept@) == keys_without(before.all_keys.take(k as int), key@),
            decreases self.all_keys.len() - k,
        {
            assert(before.all_keys.take(k + 1).drop_last() =~= before.all_keys.take(k as int));
            assert(before.all_keys[k as int] == self.all_keys@[k as int]@);
            if !str_eq(self.all_keys[k].as_str(), key.as_str()) {
                let ghost prev = strings_view(kept@);
                kept.push(self.all_keys[k].clone());
                assert(strings_view(kept@) =~= prev.push(before.all_keys[k as int]));
            }
            k = k + 1;
        }
        assert(before.all_keys.take(k as int) =~= before.all_keys);
        self.all_keys = kept;
        self.apply_filter();
        self.dirty = true;
        let mut m = String::from_str("Deleted key '");
        m.append(key.as_str());
        m.append("'");
        self.status_message = Some((m, StatusTone::Success));
        self.redraw_token = !self.redraw_token;
        self.confirm_delete = false;
        self.input_mode = InputMode::Normal;
    }
}

/// The keys of the entries of `es`, in order.
pub open spec fn entry_keys(es: Seq<EntryView>) -> Seq<Seq<char>> {
    es.map_values(|e: EntryView| e.id)
}

/// The keys of every resource, resource by resource.
pub open spec fn catalog_keys(rs: Seq<ResourceView>) -> Seq<Seq<char>>
    decreases rs.len(),
{
    if rs.len() == 0 {
        Seq::empty()
    } else {
        catalog_keys(rs.drop_last()) + entry_keys(rs.last().entries)
    }
}

/// The non-empty languages of the resources, in order.
pub open spec fn named_languages(rs: Seq<ResourceView>) -> Seq<Seq<char>>
    decreases rs.len(),
{
    if rs.len() == 0 {
        Seq::empty()
    } else if rs.last().metadata.language.len() > 0 {
        named_languages(rs.drop_last()).push(rs.last().metadata.language)
    } else {
        named_languages(rs.drop_last())
    }
}

/// The position of the first `en`.
pub open spec fn en_position(ls: Seq<Seq<char>>) -> Option<int>
    decreases ls.len(),
{
    if ls.len() == 0 {
        None
    } else {
        match en_position(ls.drop_last()) {
            Some(p) => Some(p),
            None => if ls.last() == "en"@ {
                Some(ls.len() - 1)
            } else {
                None
            },
        }
    }
}

/// The languages with `en` moved to the front.
pub open spec fn en_first(ls: Seq<Seq<char>>) -> Seq<Seq<char>> {
    match en_position(ls) {
        Some(p) => seq!["en"@] + ls.remove(p),
        None => ls,
    }
}

/// A new browser over a catalog: every key once, in order, all listed, the
/// first selected; the languages in order with `en` first.
pub open spec fn opened(rs: Seq<ResourceView>, path: Seq<char>, format: crate::convert::FormatView) -> AppView {
    let keys = sorted_unique(catalog_keys(rs));
    AppView {
        codec: rs,
        file_path: path,
        inferred_format: format,
        all_keys: keys,
        filtered_keys: keys,
        languages: en_first(named_languages(rs).sort_by(text_leq())),
        selected: if keys.len() > 0 {
            Some(0usize)
        } else {
            None
        },
        selected_lang_index: 0,
        search_query: Seq::empty(),
        edit_buffer: Seq::empty(),
        cursor_pos: 0,
        input_mode: InputMode::Normal,
        filter_mode: FilterMode::All,
        dirty: false,
        status_message: None,
        undo_entry: None,
        show_help: false,
        split_ratio: 38,
        translation_scroll: 0,
        confirm_delete: false,
        redraw_token: false,
    }
}

pub(crate) fn collect_keys(codec: &Codec) -> (r: Vec<String>)
    ensures
        strings_view(r@) == catalog_keys(codec@),
{
    let ghost rs = codec@;
    let mut keys: Vec<String> = Vec::new();
    let mut i: usize = 0;
    assert(rs.take(0) =~= Seq::<ResourceView>::empty());
    assert(strings_view(keys@) =~= Seq::<Seq<char>>::empty());
    while i < codec.resources.len()
        invariant
            i <= codec.resources@.len(),
            rs == codec@,
            strings_view(keys@) == catalog_keys(rs.take(i as int)),
        decreases codec.resources.len() - i,
    {
        assert(rs.take(i + 1).drop_last() =~= rs.take(i as int));
        let res = &codec.resources[i];
        let ghost es = rs[i as int].entries;
        assert(es == crate::model::entries_view(res.entries@));
        let ghost start = strings_view(keys@);
        let mut j: usize = 0;
        while j < res.entries.len()
            invariant
                j <= res.entries@.len(),
                es == crate::model::entries_view(res.entries@),
                strings_view(keys@) == start + entry_keys(es.take(j as int)),
            decreases res.entries.len() - j,
        {
            let ghost before = strings_view(keys@);
            keys.push(res.entries[j].id.clone());
            assert(entry_keys(es.take(j + 1)) =~= entry_keys(es.take(j as int)).push(es[j as int].id));
            assert(strings_view(keys@) =~= before.push(es[j as int].id));
            j = j + 1;
        }
        assert(es.take(j as int) =~= es);
        i = i + 1;
    }
    assert(rs.take(i as int) =~= rs);
    keys
}

fn collect_languages(codec: &Codec) -> (r: Vec<String>)
    ensures
        strings_view(r@) == named_languages(codec@),
{
    let ghost rs = codec@;
    let mut langs: Vec<String> = Vec::new();
    let mut i: usize = 0;
    assert(rs.take(0) =~= Seq::<ResourceView>::empty());
    assert(strings_view(langs@) =~= Seq::<Seq<char>>::empty());
    while i < codec.resources.len()
        invariant
            i <= codec.resources@.len(),
            rs == codec@,
            strings_view(langs@) == named_languages(rs.take(i as int)),
        decreases codec.resources.len() - i,
    {
        assert(rs.take(i + 1).drop_last() =~= rs.take(i as int));
        let l = &codec.resources[i].metadata.language;
        if l.unicode_len() > 0 {
            let ghost before = strings_view(langs@);
            langs.push(l.clone());
            assert(strings_view(langs@) =~= before.push(l@));
        }
        i = i + 1;
    }
    assert(rs.take(i as int) =~= rs);
    langs
}

fn put_en_first(ls: Vec<String>) -> (r: Vec<String>)
    ensures
        strings_view(r@) == en_first(strings_view(ls@)),
{
    let ghost lv = strings_view(ls@);
    let mut i: usize = 0;
    assert(lv.take(0) =~= Seq::<Seq<char>>::empty());
    while i < ls.len()
        invariant
            i <= ls@.len(),
            lv == strings_view(ls@),
            en_position(lv.take(i as int)) is None,
        decreases ls.len() - i,
    {
        assert(lv.take(i + 1).drop_last() =~= lv.take(i as int));
        if str_eq(ls[i].as_str(), "en") {
            proof {
                lemma_en_position_prefix(lv, i as int);
            }
            let mut r = ls;
            let _ = r.remove(i);
            r.insert(0, String::from_str("en"));
            assert(strings_view(r@) =~= seq!["en"@] + lv.remove(i as int));
            return r;
        }
        i = i + 1;
    }
    assert(lv.take(i as int) =~= lv);
    ls
}

proof fn lemma_en_position_prefix(lv: Seq<Seq<char>>, i: int)
    requires
        0 <= i < lv.len(),
        en_position(lv.take(i)) is None,
        lv[i] == "en"@,
    ensures
        en_position(lv) == Some(i),
    decreases lv.len(),
{
    assert(lv.take(i + 1).drop_last() =~= lv.take(i));
    if lv.len() > i + 1 {
        assert(lv.drop_last().take(i) =~= lv.take(i));
        lemma_en_position_prefix(lv.drop_last(), i);
    } else {
        assert(lv.take(i + 1) =~= lv);
    }
}

impl App {
    /// A new browser over a catalog read from `file_path`.
    pub fn new(codec: Codec, file_path: String, inferred_format: FormatType) -> (r: App)
        ensures
            r.wf(),
            r@ == opened(codec@, file_path@, inferred_format@),
    {
        let keys = collect_keys(&codec);
        let all_keys = sorted_unique_texts(keys);
        let langs = collect_languages(&codec);
        let languages = put_en_first(sort_texts(langs));
        let filtered_keys = all_keys.clone();
        let selected = if filtered_keys.len() > 0 {
            Some(0)
        } else {
            None
        };
        App {
            codec,
            file_path,
            inferred_format,
            all_keys,
            filtered_keys,
            languages,
            selected,
            selected_lang_index: 0,
            search_query: String::new(),
            edit_buffer: String::new(),
            cursor_pos: 0,
            input_mode: InputMode::Normal,
            filter_mode: FilterMode::All,
            dirty: false,
            status_message: None,
            undo_entry: None,
            show_help: false,
            split_ratio: 38,
            translation_scroll: 0,
            confirm_delete: false,
            redraw_token: false,
        }
    }
}

} // verus!

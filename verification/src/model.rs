//! The localization catalog that the commands read and change: a catalog
//! holds resources, one per language (and domain); a resource holds entries,
//! one per key.

use vstd::prelude::*;
use vstd::string::*;
use crate::text::{cat, cat3, cat5, str_eq, strings_view};

verus! {

/// The review state of an entry.
#[derive(Debug, Clone, Copy, PartialEq, Eq, Structural)]
pub enum EntryStatus {
    DoNotTranslate,
    New,
    Stale,
    NeedsReview,
    Translated,
}

/// A CLDR plural category.
#[derive(Debug, Clone, Copy, PartialEq, Eq, Structural)]
pub enum PluralCategory {
    Zero,
    One,
    Two,
    Few,
    Many,
    Other,
}

/// The forms of a plural entry, by category.
#[derive(Debug, Clone)]
pub struct Plural {
    pub id: String,
    pub forms: Vec<(PluralCategory, String)>,
}

/// The value of an entry.
#[derive(Debug, Clone)]
pub enum Translation {
    Empty,
    Singular(String),
    Plural(Plural),
}

/// One key of a resource.
#[derive(Debug, Clone)]
pub struct Entry {
    pub id: String,
    pub value: Translation,
    pub comment: Option<String>,
    pub status: EntryStatus,
}

/// What a resource says about itself: its language, its domain, and further
/// named values (such as `source_language` and `version`).
#[derive(Debug, Clone)]
pub struct Metadata {
    pub language: String,
    pub domain: String,
    pub custom: Vec<(String, String)>,
}

/// The entries of one language (and domain).
#[derive(Debug, Clone)]
pub struct Resource {
    pub metadata: Metadata,
    pub entries: Vec<Entry>,
}

/// A catalog: resources in order.
#[derive(Debug, Clone)]
pub struct Codec {
    pub resources: Vec<Resource>,
}

pub enum TranslationView {
    Empty,
    Singular(Seq<char>),
    Plural(Seq<char>, Seq<(PluralCategory, Seq<char>)>),
}

pub struct EntryView {
    pub id: Seq<char>,
    pub value: TranslationView,
    pub comment: Option<Seq<char>>,
    pub status: EntryStatus,
}

pub struct MetadataView {
    pub language: Seq<char>,
    pub domain: Seq<char>,
    pub custom: Seq<(Seq<char>, Seq<char>)>,
}

pub struct ResourceView {
    pub metadata: MetadataView,
    pub entries: Seq<EntryView>,
}

pub open spec fn opt_seq(o: Option<String>) -> Option<Seq<char>> {
    match o {
        Some(s) => Some(s@),
        None => None,
    }
}

pub open spec fn forms_view(forms: Seq<(PluralCategory, String)>) -> Seq<(PluralCategory, Seq<char>)> {
    forms.map_values(|f: (PluralCategory, String)| (f.0, f.1@))
}

pub open spec fn pairs_view(p: Seq<(String, String)>) -> Seq<(Seq<char>, Seq<char>)> {
    p.map_values(|x: (String, String)| (x.0@, x.1@))
}

impl View for Translation {
    type V = TranslationView;

    open spec fn view(&self) -> TranslationView {
        match self {
            Translation::Empty => TranslationView::Empty,
            Translation::Singular(s) => TranslationView::Singular(s@),
            Translation::Plural(p) => TranslationView::Plural(p.id@, forms_view(p.forms@)),
        }
    }
}

impl View for Entry {
    type V = EntryView;

    open spec fn view(&self) -> EntryView {
        EntryView {
            id: self.id@,
            value: self.value@,
            comment: opt_seq(self.comment),
            status: self.status,
        }
    }
}

impl View for Metadata {
    type V = MetadataView;

    open spec fn view(&self) -> MetadataView {
        MetadataView {
            language: self.language@,
            domain: self.domain@,
            custom: pairs_view(self.custom@),
        }
    }
}

pub open spec fn entries_view(e: Seq<Entry>) -> Seq<EntryView> {
    e.map_values(|x: Entry| x@)
}

impl View for Resource {
    type V = ResourceView;

    open spec fn view(&self) -> ResourceView {
        ResourceView { metadata: self.metadata@, entries: entries_view(self.entries@) }
    }
}

pub open spec fn resources_view(r: Seq<Resource>) -> Seq<ResourceView> {
    r.map_values(|x: Resource| x@)
}

impl View for Codec {
    type V = Seq<ResourceView>;

    open spec fn view(&self) -> Seq<ResourceView> {
        resources_view(self.resources@)
    }
}

pub fn copy_string(s: &String) -> (r: String)
    ensures
        r@ == s@,
{
    s.clone()
}

pub fn copy_opt_string(s: &Option<String>) -> (r: Option<String>)
    ensures
        opt_seq(r) == opt_seq(*s),
{
    match s {
        Some(x) => Some(x.clone()),
        None => None,
    }
}

pub fn copy_pairs(v: &Vec<(String, String)>) -> (r: Vec<(String, String)>)
    ensures
        pairs_view(r@) == pairs_view(v@),
{
    let mut r: Vec<(String, String)> = Vec::new();
    let mut i: usize = 0;
    while i < v.len()
        invariant
            i <= v@.len(),
            r@.len() == i,
            forall|j: int| 0 <= j < i ==> (#[trigger] r@[j]).0@ == v@[j].0@ && r@[j].1@ == v@[j].1@,
        decreases v.len() - i,
    {
        let a = v[i].0.clone();
        let b = v[i].1.clone();
        r.push((a, b));
        assert(r@[i as int].0@ == v@[i as int].0@);
        i = i + 1;
    }
    assert(pairs_view(r@) =~= pairs_view(v@));
    r
}

impl Translation {
    pub fn copy(&self) -> (r: Translation)
        ensures
            r@ == self@,
    {
        match self {
            Translation::Empty => Translation::Empty,
            Translation::Singular(s) => Translation::Singular(s.clone()),
            Translation::Plural(p) => {
                let mut forms: Vec<(PluralCategory, String)> = Vec::new();
                let mut i: usize = 0;
                while i < p.forms.len()
                    invariant
                        i <= p.forms@.len(),
                        forms@.len() == i,
                        forall|j: int|
                            0 <= j < i ==> #[trigger] forms@[j].0 == p.forms@[j].0 && forms@[j].1@
                                == p.forms@[j].1@,
                    decreases p.forms.len() - i,
                {
                    forms.push((p.forms[i].0, p.forms[i].1.clone()));
                    i = i + 1;
                }
                assert(forms_view(forms@) =~= forms_view(p.forms@));
                Translation::Plural(Plural { id: p.id.clone(), forms })
            },
        }
    }
}

impl Entry {
    pub fn copy(&self) -> (r: Entry)
        ensures
            r@ == self@,
    {
        Entry {
            id: self.id.clone(),
            value: self.value.copy(),
            comment: copy_opt_string(&self.comment),
            status: self.status,
        }
    }
}

impl Metadata {
    pub fn copy(&self) -> (r: Metadata)
        ensures
            r@ == self@,
    {
        Metadata {
            language: self.language.clone(),
            domain: self.domain.clone(),
            custom: copy_pairs(&self.custom),
        }
    }
}

pub fn copy_entries(v: &Vec<Entry>) -> (r: Vec<Entry>)
    ensures
        entries_view(r@) == entries_view(v@),
{
    let mut r: Vec<Entry> = Vec::new();
    let mut i: usize = 0;
    while i < v.len()
        invariant
            i <= v@.len(),
            r@.len() == i,
            forall|j: int| 0 <= j < i ==> #[trigger] r@[j]@ == v@[j]@,
        decreases v.len() - i,
    {
        r.push(v[i].copy());
        i = i + 1;
    }
    assert(entries_view(r@) =~= entries_view(v@));
    r
}

impl Resource {
    pub fn copy(&self) -> (r: Resource)
        ensures
            r@ == self@,
    {
        Resource { metadata: self.metadata.copy(), entries: copy_entries(&self.entries) }
    }
}

impl Codec {
    /// An empty catalog.
    pub fn new() -> (r: Codec)
        ensures
            r@ == Seq::<ResourceView>::empty(),
    {
        Codec { resources: Vec::new() }
    }

    pub fn copy(&self) -> (r: Codec)
        ensures
            r@ == self@,
    {
        let mut rs: Vec<Resource> = Vec::new();
        let mut i: usize = 0;
        while i < self.resources.len()
            invariant
                i <= self.resources@.len(),
                rs@.len() == i,
                forall|j: int| 0 <= j < i ==> #[trigger] rs@[j]@ == self.resources@[j]@,
            decreases self.resources.len() - i,
        {
            rs.push(self.resources[i].copy());
            i = i + 1;
        }
        assert(resources_view(rs@) =~= resources_view(self.resources@));
        Codec { resources: rs }
    }

    /// Appends a resource.
    pub fn add_resource(&mut self, resource: Resource)
        ensures
            final(self)@ == old(self)@.push(resource@),
    {
        self.resources.push(resource);
        assert(self@ =~= old(self)@.push(resource@));
    }
}

/// The position of the first resource whose language is exactly `lang`.
pub open spec fn find_language(rs: Seq<ResourceView>, lang: Seq<char>) -> Option<int>
    decreases rs.len(),
{
    if rs.len() == 0 {
        None
    } else if rs[0].metadata.language == lang {
        Some(0)
    } else {
        match find_language(rs.drop_first(), lang) {
            Some(k) => Some(k + 1),
            None => None,
        }
    }
}

/// The position of the first entry keyed `id`.
pub open spec fn find_key(es: Seq<EntryView>, id: Seq<char>) -> Option<int>
    decreases es.len(),
{
    if es.len() == 0 {
        None
    } else if es[0].id == id {
        Some(0)
    } else {
        match find_key(es.drop_first(), id) {
            Some(k) => Some(k + 1),
            None => None,
        }
    }
}

pub open spec fn shift(o: Option<int>, by: int) -> Option<int> {
    match o {
        Some(k) => Some(k + by),
        None => None,
    }
}

pub proof fn lemma_find_language_bounds(rs: Seq<ResourceView>, lang: Seq<char>)
    ensures
        match find_language(rs, lang) {
            Some(k) => 0 <= k < rs.len() && rs[k].metadata.language == lang && forall|j: int|
                0 <= j < k ==> rs[j].metadata.language != lang,
            None => forall|j: int| 0 <= j < rs.len() ==> rs[j].metadata.language != lang,
        },
    decreases rs.len(),
{
    if rs.len() > 0 {
        lemma_find_language_bounds(rs.drop_first(), lang);
        if rs[0].metadata.language != lang {
            assert forall|j: int| 0 < j < rs.len() implies rs[j] == rs.drop_first()[j - 1] by {}
        }
    }
}

pub proof fn lemma_find_key_bounds(es: Seq<EntryView>, id: Seq<char>)
    ensures
        match find_key(es, id) {
            Some(k) => 0 <= k < es.len() && es[k].id == id && forall|j: int|
                0 <= j < k ==> es[j].id != id,
            None => forall|j: int| 0 <= j < es.len() ==> es[j].id != id,
        },
    decreases es.len(),
{
    if es.len() > 0 {
        lemma_find_key_bounds(es.drop_first(), id);
        if es[0].id != id {
            assert forall|j: int| 0 < j < es.len() implies es[j] == es.drop_first()[j - 1] by {}
        }
    }
}

/// The index of the first resource whose language is exactly `lang`.
pub fn language_position(resources: &Vec<Resource>, lang: &str) -> (r: Option<usize>)
    ensures
        match r {
            Some(i) => find_language(resources_view(resources@), lang@) == Some(i as int),
            None => find_language(resources_view(resources@), lang@) is None,
        },
{
    let ghost rs = resources_view(resources@);
    let mut i: usize = 0;
    assert(rs.skip(0) =~= rs);
    while i < resources.len()
        invariant
            i <= resources@.len(),
            rs == resources_view(resources@),
            find_language(rs, lang@) == shift(find_language(rs.skip(i as int), lang@), i as int),
        decreases resources.len() - i,
    {
        let ghost rest = rs.skip(i as int);
        assert(rest.drop_first() =~= rs.skip(i + 1));
        assert(rest[0] == resources@[i as int]@);
        if str_eq(resources[i].metadata.language.as_str(), lang) {
            return Some(i);
        }
        i = i + 1;
    }
    assert(rs.skip(i as int).len() == 0);
    None
}

/// The index of the first entry keyed `id`.
pub fn key_position(entries: &Vec<Entry>, id: &str) -> (r: Option<usize>)
    ensures
        match r {
            Some(i) => find_key(entries_view(entries@), id@) == Some(i as int),
            None => find_key(entries_view(entries@), id@) is None,
        },
{
    let ghost es = entries_view(entries@);
    let mut i: usize = 0;
    assert(es.skip(0) =~= es);
    while i < entries.len()
        invariant
            i <= entries@.len(),
            es == entries_view(entries@),
            find_key(es, id@) == shift(find_key(es.skip(i as int), id@), i as int),
        decreases entries.len() - i,
    {
        let ghost rest = es.skip(i as int);
        assert(rest.drop_first() =~= es.skip(i + 1));
        assert(rest[0] == entries@[i as int]@);
        if str_eq(entries[i].id.as_str(), id) {
            return Some(i);
        }
        i = i + 1;
    }
    assert(es.skip(i as int).len() == 0);
    None
}

/// The entry keyed `key` in the first resource of language `lang`, if any.
pub open spec fn lookup(rs: Seq<ResourceView>, key: Seq<char>, lang: Seq<char>) -> Option<EntryView> {
    match find_language(rs, lang) {
        Some(i) => match find_key(rs[i].entries, key) {
            Some(j) => Some(rs[i].entries[j]),
            None => None,
        },
        None => None,
    }
}

impl Codec {
    /// The first resource whose language is exactly `lang`.
    pub fn get_by_language(&self, lang: &str) -> (r: Option<&Resource>)
        ensures
            match r {
                Some(res) => find_language(self@, lang@) matches Some(i) && res@ == self@[i],
                None => find_language(self@, lang@) is None,
            },
    {
        match language_position(&self.resources, lang) {
            Some(i) => {
                proof {
                    lemma_find_language_bounds(self@, lang@);
                }
                Some(&self.resources[i])
            },
            None => None,
        }
    }

    /// The entry keyed `key` in the resource of language `lang`.
    pub fn find_entry(&self, key: &str, lang: &str) -> (r: Option<&Entry>)
        ensures
            match r {
                Some(e) => lookup(self@, key@, lang@) == Some(e@),
                None => lookup(self@, key@, lang@) is None,
            },
    {
        match language_position(&self.resources, lang) {
            Some(i) => {
                proof {
                    lemma_find_language_bounds(self@, lang@);
                }
                let res = &self.resources[i];
                match key_position(&res.entries, key) {
                    Some(j) => {
                        proof {
                            lemma_find_key_bounds(entries_view(res.entries@), key@);
                        }
                        Some(&res.entries[j])
                    },
                    None => None,
                }
            },
            None => None,
        }
    }

    /// Whether the resource of language `lang` holds key `key`.
    pub fn has_entry(&self, key: &str, lang: &str) -> (r: bool)
        ensures
            r == lookup(self@, key@, lang@) is Some,
    {
        self.find_entry(key, lang).is_some()
    }
}

pub open spec fn not_found_message(key: Seq<char>, lang: Seq<char>) -> Seq<char> {
    "Entry '"@ + key + "' not found for language '"@ + lang + "'"@
}

/// The catalog with the entry at (`i`, `j`) replaced.
pub open spec fn with_entry(rs: Seq<ResourceView>, i: int, j: int, e: EntryView) -> Seq<ResourceView> {
    rs.update(i, ResourceView { metadata: rs[i].metadata, entries: rs[i].entries.update(j, e) })
}

/// The catalog with `e` appended to resource `i`.
pub open spec fn with_appended(rs: Seq<ResourceView>, i: int, e: EntryView) -> Seq<ResourceView> {
    rs.update(i, ResourceView { metadata: rs[i].metadata, entries: rs[i].entries.push(e) })
}

/// The catalog with entry `j` of resource `i` removed.
pub open spec fn without_entry(rs: Seq<ResourceView>, i: int, j: int) -> Seq<ResourceView> {
    rs.update(i, ResourceView { metadata: rs[i].metadata, entries: rs[i].entries.remove(j) })
}

impl Codec {
    /// Replaces entry `j` of resource `i`.
    pub fn set_entry(&mut self, i: usize, j: usize, e: Entry)
        requires
            i < old(self)@.len(),
            j < old(self)@[i as int].entries.len(),
        ensures
            final(self)@ == with_entry(old(self)@, i as int, j as int, e@),
    {
        let mut res = self.resources.remove(i);
        let _ = res.entries.remove(j);
        res.entries.insert(j, e);
        self.resources.insert(i, res);
        assert(entries_view(res.entries@) =~= old(self)@[i as int].entries.update(j as int, e@));
        assert(self@ =~= with_entry(old(self)@, i as int, j as int, e@));
    }

    /// Appends an entry to resource `i`.
    pub fn append_entry(&mut self, i: usize, e: Entry)
        requires
            i < old(self)@.len(),
        ensures
            final(self)@ == with_appended(old(self)@, i as int, e@),
    {
        let mut res = self.resources.remove(i);
        res.entries.push(e);
        self.resources.insert(i, res);
        assert(entries_view(res.entries@) =~= old(self)@[i as int].entries.push(e@));
        assert(self@ =~= with_appended(old(self)@, i as int, e@));
    }

    /// Removes entry `j` of resource `i`.
    pub fn delete_entry(&mut self, i: usize, j: usize)
        requires
            i < old(self)@.len(),
            j < old(self)@[i as int].entries.len(),
        ensures
            final(self)@ == without_entry(old(self)@, i as int, j as int),
    {
        let mut res = self.resources.remove(i);
        let _ = res.entries.remove(j);
        self.resources.insert(i, res);
        assert(entries_view(res.entries@) =~= old(self)@[i as int].entries.remove(j as int));
        assert(self@ =~= without_entry(old(self)@, i as int, j as int));
    }
}

/// What `update_translation` makes of a catalog: the entry keyed `key` in the
/// resource of `lang` takes the new value, and the new status when one is
/// given.
pub open spec fn updated(
    rs: Seq<ResourceView>,
    key: Seq<char>,
    lang: Seq<char>,
    value: TranslationView,
    status: Option<EntryStatus>,
) -> Option<Seq<ResourceView>> {
    match find_language(rs, lang) {
        Some(i) => match find_key(rs[i].entries, key) {
            Some(j) => {
                let old_e = rs[i].entries[j];
                Some(
                    with_entry(
                        rs,
                        i,
                        j,
                        EntryView {
                            id: old_e.id,
                            value: value,
                            comment: old_e.comment,
                            status: match status {
                                Some(s) => s,
                                None => old_e.status,
                            },
                        },
                    ),
                )
            },
            None => None,
        },
        None => None,
    }
}

/// What `add_entry` makes of a catalog: a new entry is appended to the first
/// resource of `lang`, or to a new resource of that language (with an empty
/// domain) when there is none. A missing status is `Translated`.
pub open spec fn added(
    rs: Seq<ResourceView>,
    key: Seq<char>,
    lang: Seq<char>,
    value: TranslationView,
    comment: Option<Seq<char>>,
    status: Option<EntryStatus>,
) -> Seq<ResourceView> {
    let e = EntryView {
        id: key,
        value: value,
        comment: comment,
        status: match status {
            Some(s) => s,
            None => EntryStatus::Translated,
        },
    };
    match find_language(rs, lang) {
        Some(i) => with_appended(rs, i, e),
        None => rs.push(
            ResourceView {
                metadata: MetadataView { language: lang, domain: Seq::empty(), custom: Seq::empty() },
                entries: seq![e],
            },
        ),
    }
}

/// What `remove_entry` makes of a catalog: the first entry keyed `key` in the
/// resource of `lang` is gone.
pub open spec fn removed(rs: Seq<ResourceView>, key: Seq<char>, lang: Seq<char>) -> Option<
    Seq<ResourceView>,
> {
    match find_language(rs, lang) {
        Some(i) => match find_key(rs[i].entries, key) {
            Some(j) => Some(without_entry(rs, i, j)),
            None => None,
        },
        None => None,
    }
}

impl Codec {
    /// Sets the value (and, when given, the status) of an existing entry;
    /// refuses when the entry does not exist.
    pub fn update_translation(
        &mut self,
        key: &str,
        lang: &str,
        value: Translation,
        status: Option<EntryStatus>,
    ) -> (r: Result<(), String>)
        ensures
            match updated(old(self)@, key@, lang@, value@, status) {
                Some(next) => r is Ok && final(self)@ == next,
                None => r matches Err(e) && e@ == not_found_message(key@, lang@) && final(self)@
                    == old(self)@,
            },
    {
        match language_position(&self.resources, lang) {
            Some(i) => {
                proof {
                    lemma_find_language_bounds(self@, lang@);
                }
                match key_position(&self.resources[i].entries, key) {
                    Some(j) => {
                        proof {
                            lemma_find_key_bounds(self@[i as int].entries, key@);
                        }
                        let old_e = &self.resources[i].entries[j];
                        let e = Entry {
                            id: old_e.id.clone(),
                            value: value,
                            comment: copy_opt_string(&old_e.comment),
                            status: match status {
                                Some(s) => s,
                                None => old_e.status,
                            },
                        };
                        self.set_entry(i, j, e);
                        Ok(())
                    },
                    None => Err(cat5("Entry '", key, "' not found for language '", lang, "'")),
                }
            },
            None => Err(cat5("Entry '", key, "' not found for language '", lang, "'")),
        }
    }

    /// Adds a new entry to the resource of `lang`, creating that resource
    /// when the catalog has none. A missing status is `Translated`.
    pub fn add_entry(
        &mut self,
        key: &str,
        lang: &str,
        value: Translation,
        comment: Option<String>,
        status: Option<EntryStatus>,
    ) -> (r: Result<(), String>)
        ensures
            r is Ok,
            final(self)@ == added(old(self)@, key@, lang@, value@, opt_seq(comment), status),
    {
        let e = Entry {
            id: String::from_str(key),
            value,
            comment,
            status: match status {
                Some(s) => s,
                None => EntryStatus::Translated,
            },
        };
        match language_position(&self.resources, lang) {
            Some(i) => {
                proof {
                    lemma_find_language_bounds(self@, lang@);
                }
                self.append_entry(i, e);
            },
            None => {
                let mut entries: Vec<Entry> = Vec::new();
                entries.push(e);
                let res = Resource {
                    metadata: Metadata {
                        language: String::from_str(lang),
                        domain: String::new(),
                        custom: Vec::new(),
                    },
                    entries,
                };
                proof {
                    assert(entries_view(res.entries@) =~= seq![e@]);
                    assert(pairs_view(res.metadata.custom@) =~= Seq::empty());
                }
                self.add_resource(res);
            },
        }
        Ok(())
    }

    /// Removes the entry keyed `key` from the resource of `lang`; refuses when
    /// there is no such entry.
    pub fn remove_entry(&mut self, key: &str, lang: &str) -> (r: Result<(), String>)
        ensures
            match removed(old(self)@, key@, lang@) {
                Some(next) => r is Ok && final(self)@ == next,
                None => r matches Err(e) && e@ == not_found_message(key@, lang@) && final(self)@
                    == old(self)@,
            },
    {
        match language_position(&self.resources, lang) {
            Some(i) => {
                proof {
                    lemma_find_language_bounds(self@, lang@);
                }
                match key_position(&self.resources[i].entries, key) {
                    Some(j) => {
                        proof {
                            lemma_find_key_bounds(self@[i as int].entries, key@);
                        }
                        self.delete_entry(i, j);
                        Ok(())
                    },
                    None => Err(cat5("Entry '", key, "' not found for language '", lang, "'")),
                }
            },
            None => Err(cat5("Entry '", key, "' not found for language '", lang, "'")),
        }
    }
}

/// The language of each resource, in order.
pub open spec fn languages_of(rs: Seq<ResourceView>) -> Seq<Seq<char>> {
    rs.map_values(|r: ResourceView| r.metadata.language)
}

impl Codec {
    /// The language of each resource, in order.
    pub fn languages(&self) -> (r: Vec<String>)
        ensures
            strings_view(r@) == languages_of(self@),
    {
        let mut r: Vec<String> = Vec::new();
        let mut i: usize = 0;
        while i < self.resources.len()
            invariant
                i <= self.resources@.len(),
                r@.len() == i,
                forall|j: int| 0 <= j < i ==> #[trigger] r@[j]@ == self.resources@[j].metadata.language@,
            decreases self.resources.len() - i,
        {
            r.push(self.resources[i].metadata.language.clone());
            i = i + 1;
        }
        assert(strings_view(r@) =~= languages_of(self@));
        r
    }
}

/// The entry state a status name stands for: its snake-case name.
pub open spec fn status_named(name: Seq<char>) -> Option<EntryStatus> {
    if name == "translated"@ {
        Some(EntryStatus::Translated)
    } else if name == "needs_review"@ {
        Some(EntryStatus::NeedsReview)
    } else if name == "new"@ {
        Some(EntryStatus::New)
    } else if name == "stale"@ {
        Some(EntryStatus::Stale)
    } else if name == "do_not_translate"@ {
        Some(EntryStatus::DoNotTranslate)
    } else {
        None
    }
}

pub open spec fn unknown_status_message(name: Seq<char>) -> Seq<char> {
    "Unknown entry status '"@ + name
        + "'; expected one of translated, needs_review, new, stale, do_not_translate"@
}

impl EntryStatus {
    /// Parses a snake-case status name.
    pub fn parse(name: &str) -> (r: Result<EntryStatus, String>)
        ensures
            match status_named(name@) {
                Some(st) => r == Ok::<EntryStatus, String>(st),
                None => r matches Err(e) && e@ == unknown_status_message(name@),
            },
    {
        if str_eq(name, "translated") {
            Ok(EntryStatus::Translated)
        } else if str_eq(name, "needs_review") {
            Ok(EntryStatus::NeedsReview)
        } else if str_eq(name, "new") {
            Ok(EntryStatus::New)
        } else if str_eq(name, "stale") {
            Ok(EntryStatus::Stale)
        } else if str_eq(name, "do_not_translate") {
            Ok(EntryStatus::DoNotTranslate)
        } else {
            Err(
                cat3(
                    "Unknown entry status '",
                    name,
                    "'; expected one of translated, needs_review, new, stale, do_not_translate",
                ),
            )
        }
    }
}

/// `find_language` reads nothing but the resources' languages.
pub proof fn lemma_find_language_same_languages(
    rs1: Seq<ResourceView>,
    rs2: Seq<ResourceView>,
    lang: Seq<char>,
)
    requires
        rs1.len() == rs2.len(),
        forall|i: int|
            0 <= i < rs1.len() ==> (#[trigger] rs1[i]).metadata.language
                == rs2[i].metadata.language,
    ensures
        find_language(rs1, lang) == find_language(rs2, lang),
    decreases rs1.len(),
{
    if rs1.len() > 0 {
        assert forall|i: int| 0 <= i < rs1.drop_first().len() implies (
        #[trigger] rs1.drop_first()[i]).metadata.language == rs2.drop_first()[i].metadata.language by {
            assert(rs1.drop_first()[i] == rs1[i + 1]);
            assert(rs2.drop_first()[i] == rs2[i + 1]);
        }
        lemma_find_language_same_languages(rs1.drop_first(), rs2.drop_first(), lang);
        assert(rs1[0].metadata.language == rs2[0].metadata.language);
    }
}

/// `find_key` reads nothing but the entries' keys.
pub proof fn lemma_find_key_same_ids(es1: Seq<EntryView>, es2: Seq<EntryView>, key: Seq<char>)
    requires
        es1.len() == es2.len(),
        forall|i: int| 0 <= i < es1.len() ==> (#[trigger] es1[i]).id == es2[i].id,
    ensures
        find_key(es1, key) == find_key(es2, key),
    decreases es1.len(),
{
    if es1.len() > 0 {
        assert forall|i: int| 0 <= i < es1.drop_first().len() implies (
        #[trigger] es1.drop_first()[i]).id == es2.drop_first()[i].id by {
            assert(es1.drop_first()[i] == es1[i + 1]);
            assert(es2.drop_first()[i] == es2[i + 1]);
        }
        lemma_find_key_same_ids(es1.drop_first(), es2.drop_first(), key);
        assert(es1[0].id == es2[0].id);
    }
}

/// A key missing from the entries is found at the end once appended.
pub proof fn lemma_find_key_appended(es: Seq<EntryView>, e: EntryView, key: Seq<char>)
    requires
        find_key(es, key) is None,
        e.id == key,
    ensures
        find_key(es.push(e), key) == Some(es.len() as int),
    decreases es.len(),
{
    if es.len() > 0 {
        assert(es.push(e).drop_first() =~= es.drop_first().push(e));
        lemma_find_key_appended(es.drop_first(), e, key);
    } else {
        assert(es.push(e)[0] == e);
    }
}

/// A language missing from the catalog is found at the end once a resource
/// of it is appended.
pub proof fn lemma_find_language_appended(rs: Seq<ResourceView>, r: ResourceView, lang: Seq<char>)
    requires
        find_language(rs, lang) is None,
        r.metadata.language == lang,
    ensures
        find_language(rs.push(r), lang) == Some(rs.len() as int),
    decreases rs.len(),
{
    if rs.len() > 0 {
        assert(rs.push(r).drop_first() =~= rs.drop_first().push(r));
        lemma_find_language_appended(rs.drop_first(), r, lang);
    } else {
        assert(rs.push(r)[0] == r);
    }
}

/// The resource of `lang` holds at most one entry keyed `key`.
pub open spec fn key_unique_in(rs: Seq<ResourceView>, key: Seq<char>, lang: Seq<char>) -> bool {
    match find_language(rs, lang) {
        Some(i) => forall|j1: int, j2: int|
            0 <= j1 < j2 < rs[i].entries.len() && #[trigger] rs[i].entries[j1].id == key ==> (
            #[trigger] rs[i].entries[j2]).id != key,
        None => true,
    }
}

/// Replacing an entry by one of the same key leaves it where `lookup` finds it.
pub proof fn lemma_with_entry_lookup(
    rs: Seq<ResourceView>,
    key: Seq<char>,
    lang: Seq<char>,
    i: int,
    j: int,
    e: EntryView,
)
    requires
        find_language(rs, lang) == Some(i),
        find_key(rs[i].entries, key) == Some(j),
        e.id == key,
    ensures
        find_language(with_entry(rs, i, j, e), lang) == Some(i),
        find_key(with_entry(rs, i, j, e)[i].entries, key) == Some(j),
        lookup(with_entry(rs, i, j, e), key, lang) == Some(e),
{
    lemma_find_language_bounds(rs, lang);
    lemma_find_key_bounds(rs[i].entries, key);
    let rs2 = with_entry(rs, i, j, e);
    lemma_find_language_same_languages(rs2, rs, lang);
    lemma_find_key_same_ids(rs2[i].entries, rs[i].entries, key);
}

/// A key that no entry has is not found.
pub proof fn lemma_find_key_absent(es: Seq<EntryView>, key: Seq<char>)
    requires
        forall|k: int| 0 <= k < es.len() ==> (#[trigger] es[k]).id != key,
    ensures
        find_key(es, key) is None,
{
    lemma_find_key_bounds(es, key);
}

} // verus!

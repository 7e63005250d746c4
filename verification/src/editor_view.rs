//! What the catalog browser shows: UTF-8 offsets in the edit buffer, the
//! shortened file path, the status bar, the key panel's title and the rows
//! of the translations panel. Drawing them is left to the terminal front end.

use vstd::prelude::*;
use vstd::string::*;
use crate::editor::{key_missing, sel_key, translation_text, App, AppView, FilterMode, InputMode, StatusTone};
use crate::text::{chars_of, decimal, push_char, string_from_chars, sub_chars, usize_to_string};

verus! {

broadcast use vstd::string::group_string_axioms;

/// The number of bytes UTF-8 takes for `c`.
pub open spec fn utf8_width(c: char) -> nat {
    if '\u{80}' > c {
        1
    } else if '\u{800}' > c {
        2
    } else if '\u{10000}' > c {
        3
    } else {
        4
    }
}

/// The number of bytes UTF-8 takes for `s`.
pub open spec fn utf8_len(s: Seq<char>) -> nat
    decreases s.len(),
{
    if s.len() == 0 {
        0
    } else {
        utf8_width(s[0]) + utf8_len(s.drop_first())
    }
}

proof fn lemma_utf8_len_push(s: Seq<char>, c: char)
    ensures
        utf8_len(s.push(c)) == utf8_len(s) + utf8_width(c),
    decreases s.len(),
{
    if s.len() > 0 {
        assert(s.push(c).drop_first() =~= s.drop_first().push(c));
        assert(s.push(c)[0] == s[0]);
        lemma_utf8_len_push(s.drop_first(), c);
    } else {
        assert(s.push(c).drop_first() =~= Seq::<char>::empty());
        assert(s.push(c)[0] == c);
        assert(utf8_len(Seq::<char>::empty()) == 0);
    }
}

proof fn lemma_utf8_len_take_step(s: Seq<char>, i: int)
    requires
        0 <= i < s.len(),
    ensures
        utf8_len(s.take(i + 1)) == utf8_len(s.take(i)) + utf8_width(s[i]),
{
    assert(s.take(i + 1) =~= s.take(i).push(s[i]));
    lemma_utf8_len_push(s.take(i), s[i]);
}

fn width_of(c: char) -> (r: usize)
    ensures
        r == utf8_width(c),
{
    if '\u{80}' > c {
        1
    } else if '\u{800}' > c {
        2
    } else if '\u{10000}' > c {
        3
    } else {
        4
    }
}

/// The byte offset of character `char_idx` in `s` (the length of `s` in
/// bytes when there is no such character).
pub fn char_to_byte_index(s: &str, char_idx: usize) -> (r: usize)
    requires
        utf8_len(s@) <= usize::MAX,
    ensures
        r == (if char_idx < s@.len() {
            utf8_len(s@.take(char_idx as int))
        } else {
            utf8_len(s@)
        }),
{
    let v = chars_of(s);
    let stop = if char_idx < v.len() {
        char_idx
    } else {
        v.len()
    };
    let mut acc: usize = 0;
    let mut i: usize = 0;
    assert(v@.take(0) =~= Seq::<char>::empty());
    while i < stop
        invariant
            v@ == s@,
            stop <= v@.len(),
            i <= stop,
            acc == utf8_len(v@.take(i as int)),
            utf8_len(v@) <= usize::MAX,
        decreases stop - i,
    {
        proof {
            lemma_utf8_len_take_step(v@, i as int);
            lemma_utf8_len_prefix_le(v@, i + 1);
        }
        acc = acc + width_of(v[i]);
        i = i + 1;
    }
    assert(stop == v@.len() ==> v@.take(stop as int) =~= v@);
    acc
}

proof fn lemma_utf8_len_prefix_le(s: Seq<char>, k: int)
    requires
        0 <= k <= s.len(),
    ensures
        utf8_len(s.take(k)) <= utf8_len(s),
    decreases s.len() - k,
{
    if k < s.len() {
        lemma_utf8_len_prefix_le(s, k + 1);
        lemma_utf8_len_take_step(s, k);
    } else {
        assert(s.take(k) =~= s);
    }
}

/// A character of a script whose glyphs terminals tend to draw wider than
/// reported (Arabic, the Indic scripts, Thai, Lao, Tibetan, Myanmar).
pub open spec fn complex_char(c: char) -> bool {
    ||| '\u{0600}' <= c <= '\u{06FF}'
    ||| '\u{0750}' <= c <= '\u{077F}'
    ||| '\u{FB50}' <= c <= '\u{FDFF}'
    ||| '\u{FE70}' <= c <= '\u{FEFF}'
    ||| '\u{0900}' <= c <= '\u{0D7F}'
    ||| '\u{0E00}' <= c <= '\u{0FFF}'
    ||| '\u{1000}' <= c <= '\u{109F}'
}

/// Whether `s` holds a character of such a script.
pub fn has_complex_scripts(s: &str) -> (r: bool)
    ensures
        r == exists|i: int| 0 <= i < s@.len() && complex_char(#[trigger] s@[i]),
{
    let v = chars_of(s);
    let mut i: usize = 0;
    while i < v.len()
        invariant
            v@ == s@,
            i <= v@.len(),
            forall|j: int| 0 <= j < i ==> !complex_char(#[trigger] v@[j]),
        decreases v.len() - i,
    {
        let c = v[i];
        if ('\u{0600}' <= c && c <= '\u{06FF}') || ('\u{0750}' <= c && c <= '\u{077F}') || (
        '\u{FB50}' <= c && c <= '\u{FDFF}') || ('\u{FE70}' <= c && c <= '\u{FEFF}') || ('\u{0900}'
            <= c && c <= '\u{0D7F}') || ('\u{0E00}' <= c && c <= '\u{0FFF}') || ('\u{1000}' <= c
            && c <= '\u{109F}') {
            assert(complex_char(s@[i as int]));
            return true;
        }
        i = i + 1;
    }
    false
}

/// The number of leading characters of `s` that the first `b` bytes hold.
pub open spec fn chars_within(s: Seq<char>, b: int) -> int
    decreases s.len(),
{
    if b <= 0 || s.len() == 0 {
        0
    } else {
        1 + chars_within(s.drop_first(), b - utf8_width(s[0]))
    }
}

/// The position of the first `/`.
pub open spec fn slash_position(s: Seq<char>) -> Option<int>
    decreases s.len(),
{
    if s.len() == 0 {
        None
    } else if s[0] == '/' {
        Some(0)
    } else {
        match slash_position(s.drop_first()) {
            Some(p) => Some(p + 1),
            None => None,
        }
    }
}

/// A path shortened to its last `max_len` bytes, cut back to the next `/`
/// when there is one, behind an ellipsis.
pub open spec fn truncated_path(path: Seq<char>, max_len: int) -> Seq<char> {
    let n = utf8_len(path);
    if n <= max_len {
        path
    } else {
        let short = path.skip(chars_within(path, n - max_len));
        match slash_position(short) {
            Some(p) => seq!['…'] + short.skip(p),
            None => seq!['…'] + short,
        }
    }
}

/// The cut a shortened path makes falls between two characters.
pub open spec fn cut_on_boundary(path: Seq<char>, max_len: int) -> bool {
    let n = utf8_len(path);
    n <= max_len || utf8_len(path.take(chars_within(path, n - max_len))) == n - max_len
}

fn slash_in(v: &[char]) -> (r: Option<usize>)
    ensures
        r matches Some(p) ==> p < v@.len(),
        match r {
            Some(p) => slash_position(v@) == Some(p as int),
            None => slash_position(v@) is None,
        },
{
    let mut i: usize = 0;
    assert(v@.skip(0) =~= v@);
    while i < v.len()
        invariant
            i <= v@.len(),
            slash_position(v@) == match slash_position(v@.skip(i as int)) {
                Some(p) => Some(p + i),
                None => None::<int>,
            },
        decreases v.len() - i,
    {
        assert(v@.skip(i as int).drop_first() =~= v@.skip(i + 1));
        assert(v@.skip(i as int)[0] == v@[i as int]);
        if v[i] == '/' {
            return Some(i);
        }
        i = i + 1;
    }
    None
}

/// Shortens a path to about `max_len` bytes for the status bar.
pub fn truncate_path(path: &str, max_len: usize) -> (r: String)
    requires
        utf8_len(path@) <= usize::MAX,
        cut_on_boundary(path@, max_len as int),
    ensures
        r@ == truncated_path(path@, max_len as int),
{
    let v = chars_of(path);
    let n = char_to_byte_index(path, v.len());
    assert(v@.len() >= v@.len());
    if n <= max_len {
        return String::from_str(path);
    }
    let b = n - max_len;
    let mut acc: usize = 0;
    let mut i: usize = 0;
    assert(v@.take(0) =~= Seq::<char>::empty());
    assert(v@.skip(0) =~= v@);
    while acc < b
        invariant
            v@ == path@,
            i <= v@.len(),
            acc == utf8_len(v@.take(i as int)),
            utf8_len(v@) == n,
            b <= n,
            n <= usize::MAX,
            chars_within(v@, b as int) == i + chars_within(v@.skip(i as int), b - acc),
        decreases v.len() - i,
    {
        if i == v.len() {
            assert(v@.take(i as int) =~= v@);
        }
        proof {
            lemma_utf8_len_take_step(v@, i as int);
            lemma_utf8_len_prefix_le(v@, i + 1);
            let t = v@.skip(i as int);
            assert(t[0] == v@[i as int]);
            assert(t.drop_first() =~= v@.skip(i + 1));
        }
        acc = acc + width_of(v[i]);
        i = i + 1;
    }
    let short = sub_chars(v.as_slice(), i, v.len());
    assert(short@ =~= path@.skip(chars_within(path@, b as int)));
    let mut r = String::new();
    push_char(&mut r, '…');
    match slash_in(short.as_slice()) {
        Some(p) => {
            let tail = sub_chars(short.as_slice(), p, short.len());
            assert(tail@ =~= short@.skip(p as int));
            r.append(string_from_chars(tail.as_slice()).as_str());
        },
        None => {
            r.append(string_from_chars(short.as_slice()).as_str());
        },
    }
    r
}

/// A colour of the status bar.
#[derive(Debug, Clone, Copy, PartialEq, Eq, Structural)]
pub enum BarColor {
    Green,
    Red,
    Yellow,
    DarkGray,
    Cyan,
}

/// A run of text in one colour.
#[derive(Debug, Clone)]
pub struct BarSpan {
    pub text: String,
    pub color: BarColor,
}

/// The status bar: its text runs, its border colour, and whether it is bold.
#[derive(Debug, Clone)]
pub struct StatusBar {
    pub spans: Vec<BarSpan>,
    pub border: BarColor,
    pub bold: bool,
}

pub open spec fn spans_view(v: Seq<BarSpan>) -> Seq<(Seq<char>, BarColor)> {
    v.map_values(|s: BarSpan| (s.text@, s.color))
}

pub open spec fn dirty_mark(a: AppView) -> Seq<char> {
    if a.dirty {
        " ● "@
    } else {
        " "@
    }
}

pub open spec fn normal_hint() -> Seq<char> {
    "[/] Search  [Tab] Lang  [e] Edit  [s] Save  [D] Del  [F] Filter  [?] Help  [q] Quit"@
}

/// What the status bar shows in each mode.
pub open spec fn status_bar_view(a: AppView) -> (Seq<(Seq<char>, BarColor)>, BarColor, bool) {
    let path = truncated_path(a.file_path, 40);
    match a.input_mode {
        InputMode::Normal => match a.status_message {
            Some((msg, tone)) => {
                let c = match tone {
                    StatusTone::Success => BarColor::Green,
                    StatusTone::Error => BarColor::Red,
                };
                (seq![(dirty_mark(a) + path + " — "@ + msg, c)], c, false)
            },
            None => (
                seq![
                    (dirty_mark(a), BarColor::Yellow),
                    (path, BarColor::DarkGray),
                    ("  "@ + normal_hint(), BarColor::DarkGray),
                ],
                BarColor::DarkGray,
                false,
            ),
        },
        InputMode::Search => (
            seq![
                (" Search: "@ + a.search_query + "█   "@ + decimal(a.filtered_keys.len())
                    + " results   [Enter] confirm  [Esc] clear"@, BarColor::Cyan),
            ],
            BarColor::Cyan,
            false,
        ),
        InputMode::Edit => (
            seq![
                (" [←→] cursor   [Ctrl+Y] copy source   [Enter] confirm   [Esc] cancel"@, BarColor::Yellow),
            ],
            BarColor::Yellow,
            false,
        ),
        InputMode::ConfirmQuit => (
            seq![(" Unsaved changes — [y] Save & quit   [n] Quit   [Esc] Cancel"@, BarColor::Red)],
            BarColor::Red,
            true,
        ),
        InputMode::ConfirmDelete => {
            let key = match sel_key(a) {
                Some(k) => k,
                None => "<unknown>"@,
            };
            (
                seq![
                    (" Delete key '"@ + key + "'?   [y] Yes   [n] No   [Esc] Cancel"@, BarColor::Red),
                ],
                BarColor::Red,
                true,
            )
        },
        InputMode::Help => (
            seq![(" Press any key to close help"@, BarColor::DarkGray)],
            BarColor::DarkGray,
            false,
        ),
    }
}

fn span(text: String, color: BarColor) -> (r: BarSpan)
    ensures
        r.text@ == text@,
        r.color == color,
{
    BarSpan { text, color }
}

fn one_span(text: String, color: BarColor, bold: bool) -> (r: StatusBar)
    ensures
        spans_view(r.spans@) == seq![(text@, color)],
        r.border == color,
        r.bold == bold,
{
    let mut spans: Vec<BarSpan> = Vec::new();
    spans.push(span(text, color));
    assert(spans_view(spans@) =~= seq![(text@, color)]);
    StatusBar { spans, border: color, bold }
}

impl App {
    /// The status bar for the current state.
    pub fn status_bar(&self) -> (r: StatusBar)
        requires
            utf8_len(self.file_path@) <= usize::MAX,
            cut_on_boundary(self.file_path@, 40),
        ensures
            (spans_view(r.spans@), r.border, r.bold) == status_bar_view(self@),
    {
        match self.input_mode {
            InputMode::Normal => {
                let dirty = if self.dirty {
                    String::from_str(" ● ")
                } else {
                    String::from_str(" ")
                };
                let path = truncate_path(self.file_path.as_str(), 40);
                match &self.status_message {
                    Some((msg, tone)) => {
                        let color = match tone {
                            StatusTone::Success => BarColor::Green,
                            StatusTone::Error => BarColor::Red,
                        };
                        let mut text = dirty;
                        text.append(path.as_str());
                        text.append(" — ");
                        text.append(msg.as_str());
                        one_span(text, color, false)
                    },
                    None => {
                        let mut spans: Vec<BarSpan> = Vec::new();
                        let ghost d = dirty@;
                        let ghost p = path@;
                        spans.push(span(dirty, BarColor::Yellow));
                        spans.push(span(path, BarColor::DarkGray));
                        let mut hint = String::from_str("  ");
                        hint.append(
                            "[/] Search  [Tab] Lang  [e] Edit  [s] Save  [D] Del  [F] Filter  [?] Help  [q] Quit",
                        );
                        let ghost h = hint@;
                        spans.push(span(hint, BarColor::DarkGray));
                        assert(spans_view(spans@) =~= seq![
                            (d, BarColor::Yellow),
                            (p, BarColor::DarkGray),
                            (h, BarColor::DarkGray),
                        ]);
                        StatusBar { spans, border: BarColor::DarkGray, bold: false }
                    },
                }
            },
            InputMode::Search => {
                let mut text = String::from_str(" Search: ");
                text.append(self.search_query.as_str());
                text.append("█   ");
                text.append(usize_to_string(self.filtered_keys.len()).as_str());
                text.append(" results   [Enter] confirm  [Esc] clear");
                one_span(text, BarColor::Cyan, false)
            },
            InputMode::Edit => one_span(
                String::from_str(
                    " [←→] cursor   [Ctrl+Y] copy source   [Enter] confirm   [Esc] cancel",
                ),
                BarColor::Yellow,
                false,
            ),
            InputMode::ConfirmQuit => one_span(
                String::from_str(" Unsaved changes — [y] Save & quit   [n] Quit   [Esc] Cancel"),
                BarColor::Red,
                true,
            ),
            InputMode::ConfirmDelete => {
                let mut text = String::from_str(" Delete key '");
                match self.selected_key() {
                    Some(k) => text.append(k),
                    None => text.append("<unknown>"),
                }
                text.append("'?   [y] Yes   [n] No   [Esc] Cancel");
                one_span(text, BarColor::Red, true)
            },
            InputMode::Help => one_span(
                String::from_str(" Press any key to close help"),
                BarColor::DarkGray,
                false,
            ),
        }
    }
}

/// The title of the key panel: the position and count (or, while searching,
/// the listed count and the search), and a badge in the missing-only mode.
pub open spec fn key_panel_title(a: AppView) -> Seq<char> {
    let badge = if a.filter_mode == FilterMode::Missing {
        " [missing]"@
    } else {
        Seq::empty()
    };
    let in_search = a.input_mode == InputMode::Search;
    if a.search_query.len() > 0 || in_search {
        " Keys ("@ + decimal(a.filtered_keys.len()) + "/"@ + decimal(a.all_keys.len()) + ")"@
            + badge + " /"@ + a.search_query + (if in_search {
            "█"@
        } else {
            Seq::empty()
        }) + "/ "@
    } else {
        let pos: nat = match a.selected {
            Some(i) => (i + 1) as nat,
            None => 0,
        };
        " Keys ("@ + decimal(pos) + "/"@ + decimal(a.all_keys.len()) + ")"@ + badge + " "@
    }
}

impl App {
    /// The title of the key panel.
    pub fn key_panel_title(&self) -> (r: String)
        requires
            self.wf(),
        ensures
            r@ == key_panel_title(self@),
    {
        let in_search = self.input_mode == InputMode::Search;
        let badge = if self.filter_mode == FilterMode::Missing {
            " [missing]"
        } else {
            ""
        };
        assert(badge@ == (if self.filter_mode == FilterMode::Missing {
            " [missing]"@
        } else {
            Seq::<char>::empty()
        })) by {
            reveal_strlit("");
        }
        let mut t = String::from_str(" Keys (");
        if self.search_query.unicode_len() > 0 || in_search {
            t.append(usize_to_string(self.filtered_keys.len()).as_str());
            t.append("/");
            t.append(usize_to_string(self.all_keys.len()).as_str());
            t.append(")");
            t.append(badge);
            t.append(" /");
            t.append(self.search_query.as_str());
            if in_search {
                t.append("█");
            }
            t.append("/ ");
        } else {
            let n = self.filtered_keys.len();
            let pos: usize = match self.selected {
                Some(i) => if i < n { i + 1 } else { n },
                None => 0,
            };
            t.append(usize_to_string(pos).as_str());
            t.append("/");
            t.append(usize_to_string(self.all_keys.len()).as_str());
            t.append(")");
            t.append(badge);
            t.append(" ");
        }
        t
    }

    /// The keys the panel lists, each with whether it lacks a translation.
    pub fn key_panel_items(&self) -> (r: Vec<(bool, String)>)
        ensures
            r@.len() == self.filtered_keys@.len(),
            forall|i: int|
                0 <= i < r@.len() ==> (#[trigger] r@[i]).1@ == self@.filtered_keys[i] && r@[i].0
                    == key_missing(self@.codec, self@.languages, self@.filtered_keys[i]),
    {
        let mut r: Vec<(bool, String)> = Vec::new();
        let mut i: usize = 0;
        while i < self.filtered_keys.len()
            invariant
                i <= self.filtered_keys@.len(),
                r@.len() == i,
                forall|j: int|
                    0 <= j < i ==> (#[trigger] r@[j]).1@ == self@.filtered_keys[j] && r@[j].0
                        == key_missing(self@.codec, self@.languages, self@.filtered_keys[j]),
            decreases self.filtered_keys.len() - i,
        {
            let k = self.filtered_keys[i].clone();
            let m = self.has_missing(k.as_str());
            r.push((m, k));
            i = i + 1;
        }
        r
    }
}

/// `s` padded with spaces to at least nine characters (`{:<9}`).
pub open spec fn pad9(s: Seq<char>) -> Seq<char> {
    if s.len() < 9 {
        s + Seq::new((9 - s.len()) as nat, |i: int| ' ')
    } else {
        s
    }
}

fn pad_nine(s: &String) -> (r: String)
    ensures
        r@ == pad9(s@),
{
    let mut r = s.clone();
    let n = s.unicode_len();
    if n < 9 {
        let mut k: usize = n;
        while k < 9
            invariant
                n == s@.len(),
                n <= k <= 9,
                r@ == s@ + Seq::new((k - n) as nat, |i: int| ' '),
            decreases 9 - k,
        {
            push_char(&mut r, ' ');
            k = k + 1;
            assert(r@ =~= s@ + Seq::new((k - n) as nat, |i: int| ' '));
        }
    }
    r
}

/// One language row of the translations panel.
#[derive(Debug, Clone)]
pub struct PanelRow {
    /// The language column, with its marker.
    pub label: String,
    /// The language.
    pub language: String,
    /// The shown text; `None` for a missing translation.
    pub value: Option<String>,
    /// The row of the selected language.
    pub selected: bool,
    /// The selected row shows the edit buffer.
    pub editing: bool,
    /// The rows it takes.
    pub height: u16,
}

pub open spec fn row_label(selected: bool, editing: bool, lang: Seq<char>) -> Seq<char> {
    if selected && editing {
        " E   "@ + pad9(lang)
    } else if selected {
        " ▶   "@ + pad9(lang)
    } else {
        "     "@ + pad9(lang)
    }
}

/// The rows from language `k` on, starting at row `y` of a panel `h` rows
/// high: one row per language, up to five for the selected one, while rows
/// remain.
pub open spec fn panel_rows(a: AppView, key: Seq<char>, h: int, k: int, y: int) -> Seq<
    (Seq<char>, Option<Seq<char>>, bool, int),
>
    decreases a.languages.len() - k,
{
    if k < 0 || k >= a.languages.len() || y >= h {
        Seq::empty()
    } else {
        let selected = k == a.selected_lang_index;
        let height = if selected {
            if h - y < 5 {
                h - y
            } else {
                5
            }
        } else {
            1
        };
        seq![
            (
                row_label(selected, a.input_mode == InputMode::Edit, a.languages[k]),
                translation_text(a.codec, key, a.languages[k]),
                selected,
                height,
            ),
        ] + panel_rows(a, key, h, k + 1, y + height)
    }
}

/// The rows of the translations panel for the selected key, below the key
/// line and a blank line.
pub open spec fn panel_view(a: AppView, h: int) -> Option<Seq<(Seq<char>, Option<Seq<char>>, bool, int)>> {
    match sel_key(a) {
        None => None,
        Some(key) => Some(
            panel_rows(
                a,
                key,
                h,
                0,
                if h >= 2 {
                    2
                } else {
                    h
                },
            ),
        ),
    }
}

pub open spec fn rows_view(v: Seq<PanelRow>) -> Seq<(Seq<char>, Option<Seq<char>>, bool, int)> {
    v.map_values(|r: PanelRow| (r.label@, crate::model::opt_seq(r.value), r.selected, r.height as int))
}

impl App {
    /// The rows of the translations panel, for a panel `height` rows high;
    /// `None` when no key is selected.
    pub fn translation_panel(&self, height: u16) -> (r: Option<Vec<PanelRow>>)
        requires
            self.wf(),
        ensures
            match r {
                Some(rows) => panel_view(self@, height as int) == Some(rows_view(rows@)),
                None => panel_view(self@, height as int) is None,
            },
    {
        let key = match self.selected_key() {
            Some(k) => String::from_str(k),
            None => return None,
        };
        let h = height;
        let mut y: u16 = if h >= 2 { 2 } else { h };
        let editing = self.input_mode == InputMode::Edit;
        let mut rows: Vec<PanelRow> = Vec::new();
        let mut k: usize = 0;
        let ghost a = self@;
        while k < self.languages.len() && y < h
            invariant
                a == self@,
                k <= self.languages@.len(),
                y <= h,
                editing == (self.input_mode == InputMode::Edit),
                panel_rows(a, key@, h as int, 0, if h >= 2 { 2 } else { h as int }) == rows_view(rows@)
                    + panel_rows(a, key@, h as int, k as int, y as int),
            decreases self.languages.len() - k,
        {
            let selected = k == self.selected_lang_index;
            let lang = &self.languages[k];
            assert(a.languages[k as int] == lang@);
            let row_height: u16 = if selected {
                if h - y < 5 { h - y } else { 5 }
            } else {
                1
            };
            let padded = pad_nine(lang);
            let mut label = if selected && editing {
                String::from_str(" E   ")
            } else if selected {
                String::from_str(" ▶   ")
            } else {
                String::from_str("     ")
            };
            label.append(padded.as_str());
            let ghost before = rows_view(rows@);
            rows.push(
                PanelRow {
                    label,
                    language: lang.clone(),
                    value: self.get_translation(key.as_str(), lang.as_str()),
                    selected,
                    editing: selected && editing,
                    height: row_height,
                },
            );
            assert(rows_view(rows@) =~= before + panel_rows(a, key@, h as int, k as int, y as int).take(1));
            y = y + row_height;
            k = k + 1;
        }
        assert(panel_rows(a, key@, h as int, k as int, y as int) =~= Seq::empty());
        assert(rows_view(rows@) =~= rows_view(rows@) + Seq::empty());
        Some(rows)
    }
}

/// The edit buffer around the cursor: the text before it, the character
/// under it (a space at the end), and the text after that character.
pub open spec fn cursor_parts(buf: Seq<char>, cursor: int) -> (Seq<char>, Seq<char>, Seq<char>) {
    let under = if cursor < buf.len() {
        seq![buf[cursor]]
    } else {
        seq![' ']
    };
    let after_start = if cursor < buf.len() {
        cursor + 1
    } else {
        cursor
    };
    (buf.take(cursor), under, buf.skip(after_start))
}

impl App {
    /// The edit buffer split at the cursor, for drawing the cursor.
    pub fn edit_cursor_parts(&self) -> (r: (String, String, String))
        requires
            self.wf(),
        ensures
            (r.0@, r.1@, r.2@) == cursor_parts(self@.edit_buffer, self.cursor_pos as int),
    {
        let v = chars_of(self.edit_buffer.as_str());
        let c = self.cursor_pos;
        let before = string_from_chars(sub_chars(v.as_slice(), 0, c).as_slice());
        let mut under = String::new();
        let after_start = if c < v.len() {
            push_char(&mut under, v[c]);
            c + 1
        } else {
            push_char(&mut under, ' ');
            c
        };
        let after = string_from_chars(sub_chars(v.as_slice(), after_start, v.len()).as_slice());
        assert(v@.subrange(0, c as int) =~= v@.take(c as int));
        assert(v@.subrange(after_start as int, v@.len() as int) =~= v@.skip(after_start as int));
        assert(under@ =~= (if c < v@.len() {
            seq![v@[c as int]]
        } else {
            seq![' ']
        }));
        (before, under, after)
    }
}

/// The options of `browse`.
pub struct BrowseOptions {
    pub input: String,
    pub lang: Option<String>,
}

pub open spec fn complex_text(t: Seq<char>) -> bool {
    exists|i: int| 0 <= i < t.len() && complex_char(#[trigger] t[i])
}

/// Whether the translation of `key` into language `l` is in a complex script.
pub open spec fn translation_complex(a: AppView, key: Seq<char>, l: int) -> bool {
    match translation_text(a.codec, key, a.languages[l]) {
        Some(t) => complex_text(t),
        None => false,
    }
}

/// Whether the key at a list position has, in some language, a translation
/// in a complex script.
pub open spec fn key_is_complex(a: AppView, idx: Option<usize>) -> bool {
    match idx {
        Some(i) => i < a.filtered_keys.len() && key_complex_in_some_language(a, a.filtered_keys[i as int]),
        None => false,
    }
}

pub open spec fn key_complex_in_some_language(a: AppView, key: Seq<char>) -> bool {
    exists|l: int| 0 <= l < a.languages.len() && #[trigger] translation_complex(a, key, l)
}

fn key_has_complex_text(app: &App, idx: Option<usize>) -> (r: bool)
    ensures
        r == key_is_complex(app@, idx),
{
    match idx {
        Some(i) => {
            if i >= app.filtered_keys.len() {
                return false;
            }
            let key = &app.filtered_keys[i];
            let ghost av = app@;
            assert(av.filtered_keys[i as int] == key@);
            let mut l: usize = 0;
            while l < app.languages.len()
                invariant
                    l <= app.languages@.len(),
                    av == app@,
                    idx == Some(i),
                    i < av.filtered_keys.len(),
                    av.filtered_keys[i as int] == key@,
                    forall|q: int|
                        0 <= q < l ==> !#[trigger] translation_complex(av, av.filtered_keys[i as int], q),
                decreases app.languages.len() - l,
            {
                assert(av.languages[l as int] == app.languages@[l as int]@);
                match app.get_translation(key.as_str(), app.languages[l].as_str()) {
                    Some(v) => {
                        if has_complex_scripts(v.as_str()) {
                            assert(translation_text(av.codec, av.filtered_keys[i as int], av.languages[l as int]) == Some(v@));
                            assert(translation_complex(av, av.filtered_keys[i as int], l as int));

                            return true;
                        }
                    },
                    None => {},
                }
                l = l + 1;
            }
            false
        },
        None => false,
    }
}

/// Whether the browser clears the whole terminal after the highlighted key
/// moved from `prev` to `cur`: only on a move, and only when the old or the
/// new key has complex-script text.
pub fn needs_full_clear(app: &App, prev: Option<usize>, cur: Option<usize>) -> (r: bool)
    ensures
        r == (cur != prev && (key_is_complex(app@, prev) || key_is_complex(app@, cur))),
{
    if cur == prev {
        return false;
    }
    key_has_complex_text(app, prev) || key_has_complex_text(app, cur)
}

} // verus!

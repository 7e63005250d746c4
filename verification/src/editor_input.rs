//! What each key does in the catalog browser, mode by mode.

use vstd::prelude::*;
use vstd::string::*;
use crate::editor::{
    backspaced, committed, copied_from_source, cycled_filter, deleted_forward, editing, inserted,
    jumped_to_missing, key_deleted, listed_keys, clamped_selection, min_int, missing_backward,
    missing_forward, moved_left, moved_right, moved_to, paged_down, paged_up, sel_or_first, undone,
    App, AppView, InputMode, StatusTone,
};
use crate::text::push_char;

verus! {

/// A key, as the browser reads it.
#[derive(Debug, Clone, Copy, PartialEq, Eq, Structural)]
pub enum KeyCode {
    Char(char),
    Down,
    Up,
    PageDown,
    PageUp,
    Tab,
    BackTab,
    Enter,
    Esc,
    Backspace,
    Left,
    Right,
    Home,
    End,
    Delete,
    Other,
}

/// A key event: the key, the modifiers held, and whether it is a press.
#[derive(Debug, Clone, Copy, PartialEq, Eq, Structural)]
pub struct KeyEvent {
    pub code: KeyCode,
    pub alt: bool,
    pub control: bool,
    pub press: bool,
}

/// A terminal event.
#[derive(Debug, Clone, Copy, PartialEq, Eq, Structural)]
pub enum Event {
    Key(KeyEvent),
    Other,
}

/// What the browser does after an event.
#[derive(Debug, Clone, Copy, PartialEq, Eq, Structural)]
pub enum HandlerResult {
    Continue,
    Quit,
    /// Write the catalog, then report the outcome with `after_save`.
    Save,
    /// Write the catalog and quit when that works.
    SaveThenQuit,
}

/// The browser with the search changed and the list filtered anew.
pub open spec fn searched(a: AppView, query: Seq<char>) -> AppView {
    let mid = AppView { search_query: query, ..a };
    let f = listed_keys(mid, mid.all_keys);
    AppView { filtered_keys: f, selected: clamped_selection(a.selected, f.len()), ..mid }
}

pub open spec fn with_mode(a: AppView, m: InputMode) -> AppView {
    AppView { input_mode: m, ..a }
}

pub open spec fn is_char(k: KeyEvent, c: char) -> bool {
    k.code == KeyCode::Char(c)
}

/// A key in normal mode.
pub open spec fn normal_key(a: AppView, k: KeyEvent) -> (AppView, HandlerResult) {
    let c = HandlerResult::Continue;
    if k.code == KeyCode::Down && k.alt {
        (scrolled(a, 1), c)
    } else if k.code == KeyCode::Up && k.alt {
        (scrolled(a, -1), c)
    } else if is_char(k, 'J') {
        (scrolled(a, 1), c)
    } else if is_char(k, 'K') {
        (scrolled(a, -1), c)
    } else if (k.code == KeyCode::PageDown || is_char(k, 'd')) && k.control {
        (paged_down(a, 10), c)
    } else if (k.code == KeyCode::PageUp || is_char(k, 'u')) && k.control {
        (paged_up(a, 10), c)
    } else if k.code == KeyCode::Down || is_char(k, 'j') {
        (paged_down(a, 1), c)
    } else if k.code == KeyCode::Up || is_char(k, 'k') {
        (paged_up(a, 1), c)
    } else if is_char(k, 'g') {
        (if a.filtered_keys.len() == 0 {
            a
        } else {
            moved_to(a, 0)
        }, c)
    } else if is_char(k, 'G') {
        (if a.filtered_keys.len() == 0 {
            a
        } else {
            moved_to(a, a.filtered_keys.len() - 1)
        }, c)
    } else if is_char(k, ']') {
        (jumped_to_missing(a, missing_forward(a, sel_or_first(a), 1)), c)
    } else if is_char(k, '[') {
        (jumped_to_missing(a, missing_backward(a, sel_or_first(a), 1)), c)
    } else if k.code == KeyCode::Tab {
        (lang_moved(a, 1), c)
    } else if k.code == KeyCode::BackTab {
        (lang_moved(a, -1), c)
    } else if is_char(k, '<') {
        (AppView {
            split_ratio: (if a.split_ratio - 2 > 20 {
                a.split_ratio - 2
            } else {
                20
            }) as u8,
            ..a
        }, c)
    } else if is_char(k, '>') {
        (AppView { split_ratio: min_int(a.split_ratio + 2, 70) as u8, ..a }, c)
    } else if is_char(k, '/') {
        (AppView { input_mode: InputMode::Search, status_message: None, ..a }, c)
    } else if is_char(k, 'e') || k.code == KeyCode::Enter {
        (editing(a), c)
    } else if is_char(k, 'u') {
        (undone(a), c)
    } else if is_char(k, 'F') {
        (cycled_filter(a), c)
    } else if is_char(k, 'D') {
        (AppView { confirm_delete: true, input_mode: InputMode::ConfirmDelete, ..a }, c)
    } else if is_char(k, '?') {
        (AppView { show_help: true, input_mode: InputMode::Help, ..a }, c)
    } else if is_char(k, 's') {
        (a, HandlerResult::Save)
    } else if is_char(k, 'q') {
        if a.dirty {
            (with_mode(a, InputMode::ConfirmQuit), c)
        } else {
            (a, HandlerResult::Quit)
        }
    } else if k.code == KeyCode::Esc {
        (AppView { status_message: None, ..a }, c)
    } else {
        (a, c)
    }
}

/// The translation scrolled one line down (`dir` 1) or up.
pub open spec fn scrolled(a: AppView, dir: int) -> AppView {
    AppView {
        translation_scroll: (if dir > 0 {
            if a.translation_scroll < u16::MAX {
                a.translation_scroll + 1
            } else {
                u16::MAX as int
            }
        } else {
            if a.translation_scroll > 0 {
                a.translation_scroll - 1
            } else {
                0
            }
        }) as u16,
        ..a
    }
}

/// The next (`dir` 1) or previous language selected.
pub open spec fn lang_moved(a: AppView, dir: int) -> AppView {
    if dir > 0 {
        if a.languages.len() == 0 {
            a
        } else {
            AppView {
                selected_lang_index: min_int(a.selected_lang_index + 1, a.languages.len() - 1) as usize,
                translation_scroll: 0,
                ..a
            }
        }
    } else {
        if a.selected_lang_index > 0 {
            AppView {
                selected_lang_index: (a.selected_lang_index - 1) as usize,
                translation_scroll: 0,
                ..a
            }
        } else {
            a
        }
    }
}

/// A key in search mode.
pub open spec fn search_key(a: AppView, k: KeyEvent) -> AppView {
    if k.code == KeyCode::Esc {
        with_mode(searched(a, Seq::empty()), InputMode::Normal)
    } else if k.code == KeyCode::Enter {
        with_mode(a, InputMode::Normal)
    } else if k.code == KeyCode::Backspace {
        searched(
            a,
            if a.search_query.len() > 0 {
                a.search_query.drop_last()
            } else {
                a.search_query
            },
        )
    } else if k.code == KeyCode::Down || is_char(k, 'j') {
        paged_down(a, 1)
    } else if k.code == KeyCode::Up || is_char(k, 'k') {
        paged_up(a, 1)
    } else {
        match k.code {
            KeyCode::Char(ch) => searched(a, a.search_query.push(ch)),
            _ => a,
        }
    }
}

/// A key in edit mode.
pub open spec fn edit_key(a: AppView, k: KeyEvent) -> AppView {
    let cleared = AppView {
        edit_buffer: Seq::empty(),
        cursor_pos: 0,
        input_mode: InputMode::Normal,
        ..a
    };
    match k.code {
        KeyCode::Left => moved_left(a),
        KeyCode::Right => moved_right(a),
        KeyCode::Home => AppView { cursor_pos: 0, ..a },
        KeyCode::End => AppView { cursor_pos: a.edit_buffer.len() as usize, ..a },
        KeyCode::Backspace => backspaced(a),
        KeyCode::Delete => deleted_forward(a),
        KeyCode::Enter => committed(a),
        KeyCode::Esc => cleared,
        KeyCode::Char(ch) => if k.control {
            if ch == 'a' || ch == 'A' {
                AppView { cursor_pos: 0, ..a }
            } else if ch == 'e' || ch == 'E' {
                AppView { cursor_pos: a.edit_buffer.len() as usize, ..a }
            } else if ch == 'y' || ch == 'Y' {
                copied_from_source(a)
            } else if ch == 'c' || ch == 'C' || ch == 'd' || ch == 'D' {
                cleared
            } else {
                a
            }
        } else {
            inserted(a, ch)
        },
        _ => a,
    }
}

/// A key while a delete waits for confirmation.
pub open spec fn confirm_delete_key_press(a: AppView, k: KeyEvent) -> AppView {
    if is_char(k, 'y') || is_char(k, 'Y') || k.code == KeyCode::Enter {
        key_deleted(a)
    } else if is_char(k, 'n') || is_char(k, 'N') || k.code == KeyCode::Esc {
        AppView { confirm_delete: false, input_mode: InputMode::Normal, ..a }
    } else {
        a
    }
}

/// A key while quitting waits for confirmation.
pub open spec fn confirm_quit_key(a: AppView, k: KeyEvent) -> (AppView, HandlerResult) {
    if is_char(k, 'y') || is_char(k, 'Y') {
        (a, HandlerResult::SaveThenQuit)
    } else if is_char(k, 'n') || is_char(k, 'N') {
        (a, HandlerResult::Quit)
    } else if k.code == KeyCode::Esc || is_char(k, 'c') || is_char(k, 'C') {
        (with_mode(a, InputMode::Normal), HandlerResult::Continue)
    } else {
        (a, HandlerResult::Continue)
    }
}

/// What an event does to the browser, and what follows it.
pub open spec fn handled(a: AppView, ev: Event) -> (AppView, HandlerResult) {
    match ev {
        Event::Key(k) => if !k.press {
            (a, HandlerResult::Continue)
        } else {
            match a.input_mode {
                InputMode::Normal => normal_key(a, k),
                InputMode::Search => (search_key(a, k), HandlerResult::Continue),
                InputMode::Edit => (edit_key(a, k), HandlerResult::Continue),
                InputMode::ConfirmQuit => confirm_quit_key(a, k),
                InputMode::Help => (
                    AppView { show_help: false, input_mode: InputMode::Normal, ..a },
                    HandlerResult::Continue,
                ),
                InputMode::ConfirmDelete => (confirm_delete_key_press(a, k), HandlerResult::Continue),
            }
        },
        Event::Other => (a, HandlerResult::Continue),
    }
}

fn handle_normal(app: &mut App, key: KeyEvent) -> (r: HandlerResult)
    requires
        old(app).wf(),
        old(app).filtered_keys@.len() <= usize::MAX / 2,
        old(app).input_mode == InputMode::Normal,
    ensures
        final(app).wf(),
        (final(app)@, r) == normal_key(old(app)@, key),
{
    let code = key.code;
    if code == KeyCode::Down && key.alt {
        app.translation_scroll_down();
    } else if code == KeyCode::Up && key.alt {
        app.translation_scroll_up();
    } else if code == KeyCode::Char('J') {
        app.translation_scroll_down();
    } else if code == KeyCode::Char('K') {
        app.translation_scroll_up();
    } else if (code == KeyCode::PageDown || code == KeyCode::Char('d')) && key.control {
        app.key_next_page(10);
    } else if (code == KeyCode::PageUp || code == KeyCode::Char('u')) && key.control {
        app.key_prev_page(10);
    } else if code == KeyCode::Down || code == KeyCode::Char('j') {
        app.key_next();
    } else if code == KeyCode::Up || code == KeyCode::Char('k') {
        app.key_prev();
    } else if code == KeyCode::Char('g') {
        app.key_jump_top();
    } else if code == KeyCode::Char('G') {
        app.key_jump_bottom();
    } else if code == KeyCode::Char(']') {
        app.next_missing();
    } else if code == KeyCode::Char('[') {
        app.prev_missing();
    } else if code == KeyCode::Tab {
        app.lang_next();
    } else if code == KeyCode::BackTab {
        app.lang_prev();
    } else if code == KeyCode::Char('<') {
        app.split_narrower();
    } else if code == KeyCode::Char('>') {
        app.split_wider();
    } else if code == KeyCode::Char('/') {
        app.input_mode = InputMode::Search;
        app.status_message = None;
    } else if code == KeyCode::Char('e') || code == KeyCode::Enter {
        app.enter_edit_mode();
    } else if code == KeyCode::Char('u') {
        app.undo();
    } else if code == KeyCode::Char('F') {
        app.cycle_filter_mode();
    } else if code == KeyCode::Char('D') {
        app.confirm_delete = true;
        app.input_mode = InputMode::ConfirmDelete;
    } else if code == KeyCode::Char('?') {
        app.show_help = true;
        app.input_mode = InputMode::Help;
    } else if code == KeyCode::Char('s') {
        return HandlerResult::Save;
    } else if code == KeyCode::Char('q') {
        if app.dirty {
            app.input_mode = InputMode::ConfirmQuit;
        } else {
            return HandlerResult::Quit;
        }
    } else if code == KeyCode::Esc {
        app.status_message = None;
    }
    HandlerResult::Continue
}

fn set_search(app: &mut App, query: String)
    requires
        old(app).wf(),
    ensures
        final(app).wf(),
        final(app)@ == searched(old(app)@, query@),
{
    app.search_query = query;
    app.apply_filter();
}

fn handle_search(app: &mut App, key: KeyEvent)
    requires
        old(app).wf(),
        old(app).input_mode == InputMode::Search,
    ensures
        final(app).wf(),
        final(app)@ == search_key(old(app)@, key),
{
    let code = key.code;
    if code == KeyCode::Esc {
        set_search(app, String::new());
        app.input_mode = InputMode::Normal;
    } else if code == KeyCode::Enter {
        app.input_mode = InputMode::Normal;
    } else if code == KeyCode::Backspace {
        let v = crate::text::chars_of(app.search_query.as_str());
        let q = if v.len() > 0 {
            crate::text::string_from_chars(crate::text::sub_chars(v.as_slice(), 0, v.len() - 1).as_slice())
        } else {
            app.search_query.clone()
        };
        assert(v@.len() > 0 ==> v@.subrange(0, v@.len() - 1) =~= v@.drop_last());
        set_search(app, q);
    } else if code == KeyCode::Down || code == KeyCode::Char('j') {
        app.key_next();
    } else if code == KeyCode::Up || code == KeyCode::Char('k') {
        app.key_prev();
    } else {
        match code {
            KeyCode::Char(ch) => {
                let mut q = app.search_query.clone();
                push_char(&mut q, ch);
                set_search(app, q);
            },
            _ => {},
        }
    }
}

fn handle_edit(app: &mut App, key: KeyEvent)
    requires
        old(app).wf(),
        old(app)@.edit_buffer.len() < usize::MAX,
        old(app).input_mode == InputMode::Edit,
    ensures
        final(app).wf(),
        final(app)@ == edit_key(old(app)@, key),
{
    match key.code {
        KeyCode::Left => app.cursor_move_left(),
        KeyCode::Right => app.cursor_move_right(),
        KeyCode::Home => app.cursor_home(),
        KeyCode::End => app.cursor_end(),
        KeyCode::Backspace => app.edit_backspace(),
        KeyCode::Delete => app.edit_delete_forward(),
        KeyCode::Enter => app.commit_edit(),
        KeyCode::Esc => app.cancel_edit(),
        KeyCode::Char(ch) => {
            if key.control {
                if ch == 'a' || ch == 'A' {
                    app.cursor_home();
                } else if ch == 'e' || ch == 'E' {
                    app.cursor_end();
                } else if ch == 'y' || ch == 'Y' {
                    app.copy_from_source_lang();
                } else if ch == 'c' || ch == 'C' || ch == 'd' || ch == 'D' {
                    app.cancel_edit();
                }
            } else {
                app.edit_insert(ch);
            }
        },
        _ => {},
    }
}

/// Handles one terminal event.
pub fn handle_event(app: &mut App, event: Event) -> (r: HandlerResult)
    requires
        old(app).wf(),
        old(app).filtered_keys@.len() <= usize::MAX / 2,
        old(app)@.edit_buffer.len() < usize::MAX,
    ensures
        final(app).wf(),
        (final(app)@, r) == handled(old(app)@, event),
{
    let key = match event {
        Event::Key(k) => k,
        Event::Other => return HandlerResult::Continue,
    };
    if !key.press {
        return HandlerResult::Continue;
    }
    match app.input_mode {
        InputMode::Normal => handle_normal(app, key),
        InputMode::Search => {
            handle_search(app, key);
            HandlerResult::Continue
        },
        InputMode::Edit => {
            handle_edit(app, key);
            HandlerResult::Continue
        },
        InputMode::ConfirmQuit => {
            if key.code == KeyCode::Char('y') || key.code == KeyCode::Char('Y') {
                HandlerResult::SaveThenQuit
            } else if key.code == KeyCode::Char('n') || key.code == KeyCode::Char('N') {
                HandlerResult::Quit
            } else {
                if key.code == KeyCode::Esc || key.code == KeyCode::Char('c') || key.code
                    == KeyCode::Char('C') {
                    app.input_mode = InputMode::Normal;
                }
                HandlerResult::Continue
            }
        },
        InputMode::Help => {
            app.show_help = false;
            app.input_mode = InputMode::Normal;
            HandlerResult::Continue
        },
        InputMode::ConfirmDelete => {
            if key.code == KeyCode::Char('y') || key.code == KeyCode::Char('Y') || key.code
                == KeyCode::Enter {
                app.confirm_delete_key();
            } else if key.code == KeyCode::Char('n') || key.code == KeyCode::Char('N')
                || key.code == KeyCode::Esc {
                app.confirm_delete = false;
                app.input_mode = InputMode::Normal;
            }
            HandlerResult::Continue
        },
    }
}

/// What follows writing the catalog: a failure is shown (and, when quitting
/// was asked for, quitting is called off); a success after a quit request
/// quits.
pub fn after_save(app: &mut App, written: Result<(), String>, then_quit: bool) -> (r: HandlerResult)
    requires
        old(app).wf(),
    ensures
        final(app).wf(),
        match written {
            Ok(()) => final(app)@ == (AppView {
                dirty: false,
                status_message: Some(("Saved successfully"@, StatusTone::Success)),
                ..old(app)@
            }) && r == (if then_quit {
                HandlerResult::Quit
            } else {
                HandlerResult::Continue
            }),
            Err(e) => r == HandlerResult::Continue && final(app)@ == (AppView {
                status_message: Some(("Save failed: "@ + e@, StatusTone::Error)),
                input_mode: if then_quit {
                    InputMode::Normal
                } else {
                    old(app)@.input_mode
                },
                ..old(app)@
            }),
        },
{
    match app.finish_save(written) {
        Ok(()) => if then_quit {
            HandlerResult::Quit
        } else {
            HandlerResult::Continue
        },
        Err(e) => {
            app.status_message = Some((e, StatusTone::Error));
            if then_quit {
                app.input_mode = InputMode::Normal;
            }
            HandlerResult::Continue
        },
    }
}

} // verus!

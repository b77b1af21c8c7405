//! What the keys do.
use vstd::prelude::*;

use crate::app::{clamped, App, AppView, Focus, Mode, TabView};
use crate::layout::{minus, spec_min};
use crate::path::components;
use crate::queue::{QueueView, TaskQueue};
use crate::requests::{after_refresh, after_request, mode_toggled};
use crate::selection::copied;
use crate::sets::{toggled, Tab};
use crate::sidebar::{
    cursor_folder, entries, folder_toggled, law_the_cursor_has_a_row,
    lemma_selected_folder_is_shown, lemma_toggling_keeps_folder_rows, selected_folder,
};
use crate::width::plus;

verus! {

/// A key, as far as one has a meaning here.
#[derive(Clone, Copy, Debug, PartialEq, Eq, Structural)]
pub enum KeyCode {
    Char(char),
    Esc,
    Enter,
    Backspace,
    Tab,
    Up,
    Down,
    Left,
    Right,
    PageUp,
    PageDown,
    Home,
    Other,
}

/// A key that was pressed, and what was held down with it.
#[derive(Clone, Copy, Debug, PartialEq, Eq, Structural)]
pub struct KeyEvent {
    pub code: KeyCode,
    pub control: bool,
    /// The command key: super or meta.
    pub command: bool,
}

/// The viewer after a key while the filter is typed.
pub open spec fn filter_keyed(app: AppView, key: KeyEvent) -> AppView {
    match key.code {
        KeyCode::Esc => AppView { mode: Mode::Normal, ..app },
        KeyCode::Enter => AppView { mode: Mode::Normal, ..app },
        KeyCode::Backspace => app.with_active(
            TabView {
                filter: if app.active().filter.len() > 0 {
                    app.active().filter.drop_last()
                } else {
                    app.active().filter
                },
                selected: 0,
                folder: None,
                ..app.active()
            },
        ),
        KeyCode::Char(c) => if key.control {
            app
        } else {
            app.with_active(
                TabView {
                    filter: app.active().filter.push(c),
                    selected: 0,
                    folder: None,
                    ..app.active()
                },
            )
        },
        _ => app,
    }
}

/// The viewer with the next or the previous item selected, or its content
/// scrolled by a line.
pub open spec fn moved(app: AppView, forward: bool) -> AppView {
    let state = app.active();
    if app.focus == Focus::Content {
        app.with_active(
            TabView {
                scroll_y: if forward {
                    plus(state.scroll_y, 1)
                } else {
                    minus(state.scroll_y, 1)
                },
                ..state
            },
        )
    } else if app.filtered().len() == 0 {
        app.with_active(TabView { selected: 0, ..state })
    } else {
        let last = app.filtered().len() - 1;
        let current = spec_min(state.selected, last);
        app.with_active(
            TabView {
                selected: if forward {
                    spec_min(current + 1, last)
                } else {
                    minus(current, 1)
                },
                scroll_y: 0,
                folder: None,
                ..state
            },
        )
    }
}

/// The viewer with its content scrolled sideways, where that has the focus; else
/// with the cursor of the sidebar moved out to the folder of the selected item, or
/// back to the item.
pub open spec fn shifted(app: AppView, forward: bool) -> AppView {
    if app.focus != Focus::Content {
        app.with_active(
            TabView {
                folder: if forward {
                    None
                } else {
                    selected_folder(app)
                },
                ..app.active()
            },
        )
    } else {
        app.with_active(
            TabView {
                scroll_x: if forward {
                    plus(app.active().scroll_x, 4)
                } else {
                    minus(app.active().scroll_x, 4)
                },
                ..app.active()
            },
        )
    }
}

/// The viewer with what the cursor of the sidebar stands on opened: a folder is
/// opened or closed, and keeps the cursor; of a file the content gets the focus.
pub open spec fn opened(app: AppView) -> AppView {
    match cursor_folder(app) {
        Some(folder) => {
            let next = folder_toggled(app, folder);
            next.with_active(TabView { folder: Some(folder), ..next.active() })
        },
        None => if app.selected_item() is Some {
            AppView { focus: Focus::Content, ..app }
        } else {
            app
        },
    }
}

/// The viewer with the sidebar hidden, or shown again.
pub open spec fn sidebar_toggled(app: AppView) -> AppView {
    AppView {
        sidebar_hidden: !app.sidebar_hidden,
        focus: if app.sidebar_hidden {
            app.focus
        } else {
            Focus::Content
        },
        ..app
    }
}

pub open spec fn other_focus(focus: Focus) -> Focus {
    match focus {
        Focus::Navigation => Focus::Content,
        Focus::Content => Focus::Navigation,
    }
}

pub open spec fn is_copy(key: KeyEvent) -> bool {
    key.command && (key.code == KeyCode::Char('c') || key.code == KeyCode::Char('C'))
}

/// Whether the key closes the viewer.
pub open spec fn closes(app: AppView, key: KeyEvent) -> bool {
    app.mode != Mode::Filter && (key.code == KeyCode::Char('q') || (key.code == KeyCode::Esc
        && app.mode != Mode::Help))
}

/// The viewer after a key that only changes the viewer.
pub open spec fn plain_keyed(app: AppView, key: KeyEvent) -> AppView {
    if is_copy(key) {
        if app.tab == Tab::Files && app.focus == Focus::Content {
            copied(app)
        } else {
            app
        }
    } else {
        match key.code {
            KeyCode::Char(c) => if c == '?' {
                AppView {
                    mode: if app.mode == Mode::Help {
                        Mode::Normal
                    } else {
                        Mode::Help
                    },
                    ..app
                }
            } else if c == '1' {
                AppView { tab: Tab::Changes, selection: None, ..app }
            } else if c == '2' {
                AppView { tab: Tab::Files, selection: None, ..app }
            } else if c == 'g' {
                if app.tab == Tab::Changes {
                    AppView { selection: None, ..mode_toggled(app) }
                } else {
                    app
                }
            } else if c == 'b' {
                sidebar_toggled(app)
            } else if c == '/' {
                AppView { mode: Mode::Filter, ..app }
            } else if c == 'k' {
                moved(app, false)
            } else if c == 'j' {
                moved(app, true)
            } else if c == 'h' {
                shifted(app, false)
            } else if c == 'l' {
                shifted(app, true)
            } else {
                app
            },
            KeyCode::Esc => AppView { mode: Mode::Normal, ..app },
            KeyCode::Enter => if app.focus == Focus::Navigation {
                opened(app)
            } else {
                app
            },
            KeyCode::Tab => AppView { focus: other_focus(app.focus), ..app },
            KeyCode::Up => moved(app, false),
            KeyCode::Down => moved(app, true),
            KeyCode::Left => shifted(app, false),
            KeyCode::Right => shifted(app, true),
            KeyCode::PageUp => app.with_active(
                TabView { scroll_y: minus(app.active().scroll_y, 10), ..app.active() },
            ),
            KeyCode::PageDown => app.with_active(
                TabView { scroll_y: plus(app.active().scroll_y, 10), ..app.active() },
            ),
            KeyCode::Home => app.with_active(TabView { scroll_y: 0, ..app.active() }),
            KeyCode::Backspace => app,
            KeyCode::Other => app,
        }
    }
}

/// The viewer, the newest generation and the queue after a key, and whether the
/// viewer is to close.
pub open spec fn keyed(app: AppView, key: KeyEvent, newest: u64, queue: QueueView) -> (
    AppView,
    u64,
    QueueView,
    bool,
) {
    if app.mode == Mode::Filter {
        let (next, tasks) = after_request(filter_keyed(app, key), queue);
        (next, newest, tasks, false)
    } else if !is_copy(key) && closes(app, key) {
        (app, newest, queue, true)
    } else if !is_copy(key) && key.code == KeyCode::Char('r') {
        let (scanned, generation, filled) = after_refresh(app, newest, queue);
        let (next, tasks) = after_request(clamped(scanned), filled);
        (next, generation, tasks, false)
    } else {
        let (next, tasks) = after_request(clamped(plain_keyed(app, key)), queue);
        (next, newest, tasks, false)
    }
}

impl App {
    fn move_vertical(&mut self, forward: bool)
        requires
            old(self)@.well_formed(),
        ensures
            final(self)@ == moved(old(self)@, forward),
            final(self)@.well_formed(),
    {
        if self.focus == Focus::Content {
            let state = self.active_state_mut();
            state.scroll_y = if forward {
                state.scroll_y.saturating_add(1)
            } else {
                state.scroll_y.saturating_sub(1)
            };
            return;
        }
        let length = self.filtered_indices().len();
        let state = self.active_state_mut();
        if length == 0 {
            state.selected = 0;
        } else {
            let last = length - 1;
            let current = if state.selected < last {
                state.selected
            } else {
                last
            };
            state.selected = if !forward {
                current.saturating_sub(1)
            } else if current < last {
                current + 1
            } else {
                last
            };
            state.scroll_y = 0;
            state.folder = None;
        }
    }

    fn shift_content(&mut self, forward: bool)
        requires
            old(self)@.well_formed(),
        ensures
            final(self)@ == shifted(old(self)@, forward),
            final(self)@.well_formed(),
    {
        if self.focus == Focus::Content {
            let state = self.active_state_mut();
            state.scroll_x = if forward {
                state.scroll_x.saturating_add(4)
            } else {
                state.scroll_x.saturating_sub(4)
            };
        } else {
            let folder = if forward {
                None
            } else {
                self.folder_of_selected()
            };
            self.active_state_mut().folder = folder;
        }
    }

    fn open_selected(&mut self)
        requires
            old(self)@.well_formed(),
        ensures
            final(self)@ == opened(old(self)@),
            final(self)@.well_formed(),
    {
        match self.navigation_cursor_folder() {
            Some(folder) => {
                self.toggle_group(&folder);
                self.active_state_mut().folder = Some(folder);
            },
            None => {
                if self.actual_selected().is_some() {
                    self.focus = Focus::Content;
                }
            },
        }
    }

    fn type_in_filter(&mut self, key: KeyEvent)
        requires
            old(self)@.well_formed(),
        ensures
            final(self)@ == filter_keyed(old(self)@, key),
            final(self)@.well_formed(),
    {
        match key.code {
            KeyCode::Esc => {
                self.mode = Mode::Normal;
            },
            KeyCode::Enter => {
                self.mode = Mode::Normal;
            },
            KeyCode::Backspace => {
                let state = self.active_state_mut();
                let chars = crate::text::to_chars(state.filter.as_str());
                if chars.len() > 0 {
                    let shorter = crate::text::from_chars(&chars, 0, chars.len() - 1);
                    proof {
                        assert(shorter@ =~= chars@.drop_last());
                    }
                    state.filter = shorter;
                }
                state.selected = 0;
                state.folder = None;
            },
            KeyCode::Char(c) => {
                if !key.control {
                    let state = self.active_state_mut();
                    state.filter.push(c);
                    state.selected = 0;
                    state.folder = None;
                }
            },
            _ => {},
        }
    }

    fn press_char(&mut self, c: char)
        requires
            old(self)@.well_formed(),
        ensures
            final(self)@ == plain_keyed(
                old(self)@,
                (KeyEvent { code: KeyCode::Char(c), control: false, command: false }),
            ),
            final(self)@.well_formed(),
    {
        if c == '?' {
            self.mode = if self.mode == Mode::Help {
                Mode::Normal
            } else {
                Mode::Help
            };
        } else if c == '1' {
            self.tab = Tab::Changes;
            self.selection = None;
        } else if c == '2' {
            self.tab = Tab::Files;
            self.selection = None;
        } else if c == 'g' {
            if self.tab == Tab::Changes {
                self.toggle_changes_mode();
                self.selection = None;
            }
        } else if c == 'b' {
            if !self.sidebar_hidden {
                self.focus = Focus::Content;
            }
            self.sidebar_hidden = !self.sidebar_hidden;
        } else if c == '/' {
            self.mode = Mode::Filter;
        } else if c == 'k' {
            self.move_vertical(false);
        } else if c == 'j' {
            self.move_vertical(true);
        } else if c == 'h' {
            self.shift_content(false);
        } else if c == 'l' {
            self.shift_content(true);
        }
    }

    fn scroll_to_row(&mut self, row: usize)
        requires
            old(self)@.well_formed(),
        ensures
            final(self)@ == old(self)@.with_active(
                (TabView { scroll_y: row as int, ..old(self)@.active() }),
            ),
            final(self)@.well_formed(),
    {
        self.active_state_mut().scroll_y = row;
    }

    fn press(&mut self, key: KeyEvent)
        requires
            old(self)@.well_formed(),
        ensures
            final(self)@ == plain_keyed(old(self)@, key),
            final(self)@.well_formed(),
    {
        let copy = key.command && match key.code {
            KeyCode::Char(c) => c == 'c' || c == 'C',
            _ => false,
        };
        if copy {
            if self.tab == Tab::Files && self.focus == Focus::Content {
                self.copy_selection();
            }
            return;
        }
        match key.code {
            KeyCode::Char(c) => {
                self.press_char(c);
            },
            KeyCode::Esc => {
                self.mode = Mode::Normal;
            },
            KeyCode::Enter => {
                if self.focus == Focus::Navigation {
                    self.open_selected();
                }
            },
            KeyCode::Tab => {
                self.focus = match self.focus {
                    Focus::Navigation => Focus::Content,
                    Focus::Content => Focus::Navigation,
                };
            },
            KeyCode::Up => {
                self.move_vertical(false);
            },
            KeyCode::Down => {
                self.move_vertical(true);
            },
            KeyCode::Left => {
                self.shift_content(false);
            },
            KeyCode::Right => {
                self.shift_content(true);
            },
            KeyCode::PageUp => {
                let row = self.active_state().scroll_y.saturating_sub(10);
                self.scroll_to_row(row);
            },
            KeyCode::PageDown => {
                let row = self.active_state().scroll_y.saturating_add(10);
                self.scroll_to_row(row);
            },
            KeyCode::Home => {
                self.scroll_to_row(0);
            },
            KeyCode::Backspace => {},
            KeyCode::Other => {},
        }
    }

    /// Does what a key means; `true` where it closes the viewer.
    pub fn handle_key(&mut self, key: KeyEvent, newest: &mut u64, tasks: &mut TaskQueue) -> (close:
        bool)
        requires
            old(self)@.well_formed(),
        ensures
            (final(self)@, *final(newest), final(tasks)@, close) == keyed(
                old(self)@,
                key,
                *old(newest),
                old(tasks)@,
            ),
            final(self)@.well_formed(),
    {
        if self.mode == Mode::Filter {
            self.type_in_filter(key);
            self.request_selected(tasks);
            return false;
        }
        let copy = key.command && match key.code {
            KeyCode::Char(c) => c == 'c' || c == 'C',
            _ => false,
        };
        if !copy {
            match key.code {
                KeyCode::Char('q') => {
                    return true;
                },
                KeyCode::Esc => {
                    if self.mode != Mode::Help {
                        return true;
                    }
                },
                KeyCode::Char('r') => {
                    self.refresh(newest, tasks);
                    self.clamp_selections();
                    self.request_selected(tasks);
                    return false;
                },
                _ => {},
            }
        }
        self.press(key);
        self.clamp_selections();
        self.request_selected(tasks);
        false
    }
}

/// Whether two viewers hold the same of what was read from the workspace.
pub open spec fn same_files(a: AppView, b: AppView) -> bool {
    &&& a.files == b.files
    &&& a.changes == b.changes
    &&& a.manifest == b.manifest
    &&& a.target_pane_id == b.target_pane_id
    &&& a.diff_cache == b.diff_cache
    &&& a.source_cache == b.source_cache
    &&& a.source_notices == b.source_notices
}

proof fn lemma_opening_only_reads(app: AppView)
    ensures
        same_files(opened(app), app),
{
    if let Some(folder) = cursor_folder(app) {
        assert(same_files(folder_toggled(app, folder), app));
    }
}

proof fn lemma_moving_only_reads(app: AppView, forward: bool)
    ensures
        same_files(moved(app, forward), app),
        same_files(shifted(app, forward), app),
{
}

proof fn lemma_copying_only_reads(app: AppView)
    ensures
        same_files(copied(app), app),
{
}

proof fn lemma_letters_only_read(app: AppView, c: char)
    ensures
        same_files(
            plain_keyed(
                app,
                (KeyEvent { code: KeyCode::Char(c), control: false, command: false }),
            ),
            app,
        ),
{
    lemma_moving_only_reads(app, c == 'j' || c == 'l');
    assert(same_files(mode_toggled(app), app));
    assert(same_files(sidebar_toggled(app), app));
}

proof fn lemma_plain_keys_only_read(app: AppView, key: KeyEvent)
    ensures
        same_files(plain_keyed(app, key), app),
{
    if is_copy(key) {
        lemma_copying_only_reads(app);
    } else {
        match key.code {
            KeyCode::Char(c) => {
                let plain = KeyEvent { code: KeyCode::Char(c), control: false, command: false };
                assert(plain_keyed(app, key) == plain_keyed(app, plain));
                lemma_letters_only_read(app, c);
            },
            KeyCode::Enter => {
                lemma_opening_only_reads(app);
            },
            KeyCode::Up => {
                lemma_moving_only_reads(app, false);
            },
            KeyCode::Down => {
                lemma_moving_only_reads(app, true);
            },
            KeyCode::Left => {
                lemma_moving_only_reads(app, false);
            },
            KeyCode::Right => {
                lemma_moving_only_reads(app, true);
            },
            _ => {},
        }
    }
}

/// What follows every key: the selections are moved back to the last item, and what
/// is selected is asked for.
proof fn lemma_settling_only_reads(app: AppView, queue: QueueView)
    ensures
        same_files(after_request(clamped(app), queue).0, app),
        same_files(after_request(app, queue).0, app),
{
    assert(same_files(clamped(app), app));
}

/// No key changes anything of what was read from the workspace.
pub proof fn law_keys_only_read(app: AppView, key: KeyEvent, newest: u64, queue: QueueView)
    ensures
        same_files(keyed(app, key, newest, queue).0, app),
{
    if app.mode == Mode::Filter {
        assert(same_files(filter_keyed(app, key), app));
        lemma_settling_only_reads(filter_keyed(app, key), queue);
    } else if !is_copy(key) && key.code == KeyCode::Char('r') {
        let (scanned, _, filled) = after_refresh(app, newest, queue);
        assert(same_files(scanned, app));
        lemma_settling_only_reads(scanned, filled);
    } else {
        lemma_plain_keys_only_read(app, key);
        lemma_settling_only_reads(plain_keyed(app, key), queue);
    }
}

/// Wherever the cursor of the sidebar stands on a folder, Enter opens that folder
/// or closes it, and leaves the cursor there; so a second Enter undoes the first.
pub proof fn law_enter_toggles_the_folder(app: AppView)
    requires
        app.focus == Focus::Navigation,
        cursor_folder(app) is Some,
    ensures
        ({
            let folder = cursor_folder(app)->0;
            let group = (app.tab, components(folder));
            let once = opened(app);
            &&& once.collapsed_groups == toggled(app.collapsed_groups, group)
            &&& once.collapsed_groups.contains(group) != app.collapsed_groups.contains(group)
            &&& once.focus == Focus::Navigation
            &&& once.selected_item() == app.selected_item()
            &&& cursor_folder(once) == Some(folder)
            &&& opened(once).collapsed_groups == app.collapsed_groups
        }),
{
    let folder = cursor_folder(app)->0;
    let group = (app.tab, components(folder));
    let once = opened(app);
    assert(once.filtered() == app.filtered());
    assert(entries(once) =~= entries(app));
    law_the_cursor_has_a_row(app);
    lemma_toggling_keeps_folder_rows(app, once, folder);
    assert(toggled(toggled(app.collapsed_groups, group), group) =~= app.collapsed_groups);
}

/// The folder of the selected item can be reached: one key puts the cursor of the
/// sidebar on it, and one brings the cursor back to the item, unless that is hidden.
pub proof fn law_the_cursor_reaches_folders(app: AppView, folder: Seq<u8>)
    requires
        app.focus == Focus::Navigation,
        selected_folder(app) == Some(folder),
    ensures
        cursor_folder(shifted(app, false)) == Some(folder),
        shifted(app, false).selected_item() == app.selected_item(),
        shifted(app, true).selected_item() == app.selected_item(),
        cursor_folder(shifted(app, true)) is Some <==> app.collapsed_groups.contains(
            (app.tab, components(folder)),
        ),
{
    let out = shifted(app, false);
    let back = shifted(app, true);
    assert(out.filtered() == app.filtered());
    assert(back.filtered() == app.filtered());
    assert(selected_folder(out) == Some(folder));
    assert(selected_folder(back) == Some(folder));
    lemma_selected_folder_is_shown(out, folder);
}

/// Hiding the sidebar and showing it again leaves everything but the focus as it
/// was.
pub proof fn law_hiding_the_sidebar_twice_restores(app: AppView)
    ensures
        sidebar_toggled(sidebar_toggled(app)) == (AppView {
            focus: sidebar_toggled(sidebar_toggled(app)).focus,
            ..app
        }),
        app.sidebar_hidden ==> sidebar_toggled(app).focus == app.focus,
        !app.sidebar_hidden ==> sidebar_toggled(app).focus == Focus::Content,
{
}

/// Escape dismisses what covers the screen first, and closes the viewer only where
/// nothing does.
pub proof fn law_escape_dismisses_before_it_closes(app: AppView, newest: u64, queue: QueueView)
    ensures
        ({
            let escape = KeyEvent { code: KeyCode::Esc, control: false, command: false };
            let (next, _, _, closed) = keyed(app, escape, newest, queue);
            &&& closed <==> app.mode == Mode::Normal
            &&& !closed ==> next.mode == Mode::Normal
        }),
{
}

/// Moving keeps to the items that are listed.
pub proof fn law_moving_keeps_to_the_list(app: AppView, forward: bool)
    requires
        app.focus == Focus::Navigation,
        app.filtered().len() > 0,
        app.active().selected >= 0,
    ensures
        moved(app, forward).selected_item() is Some,
        moved(app, forward).filtered() == app.filtered(),
        ({
            let at = spec_min(app.active().selected, app.filtered().len() - 1);
            let to = moved(app, forward).active().selected;
            if forward {
                to == at + 1 || (to == at && at == app.filtered().len() - 1)
            } else {
                to == at - 1 || (to == at && at == 0)
            }
        }),
{
    assert(moved(app, forward).filtered() == app.filtered());
}

/// A key pressed with nothing held down.
pub open spec fn alone(code: KeyCode) -> KeyEvent {
    KeyEvent { code, control: false, command: false }
}

/// The viewer after a key pressed with nothing held down.
pub open spec fn pressed(app: AppView, code: KeyCode, newest: u64, queue: QueueView) -> AppView {
    keyed(app, alone(code), newest, queue).0
}

/// What follows every key moves no more than a selection that stands behind the end
/// of its list.
proof fn lemma_settling(app: AppView, queue: QueueView)
    ensures
        ({
            let next = after_request(clamped(app), queue).0;
            &&& next.tab == app.tab
            &&& next.focus == app.focus
            &&& next.mode == app.mode
            &&& next.changes_mode == app.changes_mode
            &&& next.sidebar_hidden == app.sidebar_hidden
            &&& next.collapsed_groups == app.collapsed_groups
            &&& next.selection == app.selection
            &&& next.cursor == app.cursor
            &&& next.clipboard == app.clipboard
            &&& next.filtered() == app.filtered()
            &&& next.active() == (TabView {
                selected: spec_min(
                    app.active().selected,
                    minus(app.filtered().len() as int, 1),
                ),
                ..app.active()
            })
        }),
{
    let settled = clamped(app);
    assert(settled.filtered() == app.filtered());
    let next = after_request(settled, queue).0;
    assert(next.filtered() == settled.filtered());
}

/// The arrows and the letters beside each other on the keyboard do the same.
pub proof fn law_arrows_and_letters_do_the_same(
    app: AppView,
    newest: u64,
    queue: QueueView,
    control: bool,
)
    requires
        app.mode != Mode::Filter,
    ensures
        ({
            let key = |code: KeyCode|
                keyed(app, (KeyEvent { code, control, command: false }), newest, queue);
            &&& key(KeyCode::Up) == key(KeyCode::Char('k'))
            &&& key(KeyCode::Down) == key(KeyCode::Char('j'))
            &&& key(KeyCode::Left) == key(KeyCode::Char('h'))
            &&& key(KeyCode::Right) == key(KeyCode::Char('l'))
        }),
{
}

/// Where the content has the focus, the keys scroll it: up and down by a line, or
/// by ten with the keys for a page, back to the first line with Home, and sideways
/// by four columns; never before its beginning, and what is selected stays.
pub proof fn law_keys_scroll_the_content(app: AppView, newest: u64, queue: QueueView)
    requires
        app.mode != Mode::Filter,
        app.focus == Focus::Content,
        0 <= app.active().selected < app.filtered().len(),
        0 <= app.active().scroll_y,
        app.active().scroll_y + 10 <= usize::MAX,
        0 <= app.active().scroll_x,
        app.active().scroll_x + 4 <= usize::MAX,
    ensures
        ({
            let y = app.active().scroll_y;
            let x = app.active().scroll_x;
            let after = |code: KeyCode| pressed(app, code, newest, queue).active();
            let scrolled = |scroll_x: int, scroll_y: int|
                TabView { scroll_x, scroll_y, ..app.active() };
            &&& after(KeyCode::Down) == scrolled(x, y + 1)
            &&& after(KeyCode::PageDown) == scrolled(x, y + 10)
            &&& after(KeyCode::Home) == scrolled(x, 0)
            &&& after(KeyCode::Right) == scrolled(x + 4, y)
            &&& y >= 1 ==> after(KeyCode::Up) == scrolled(x, y - 1)
            &&& y >= 10 ==> after(KeyCode::PageUp) == scrolled(x, y - 10)
            &&& x >= 4 ==> after(KeyCode::Left) == scrolled(x - 4, y)
            &&& y == 0 ==> after(KeyCode::Up) == scrolled(x, 0)
            &&& y < 10 ==> after(KeyCode::PageUp) == scrolled(x, 0)
            &&& x < 4 ==> after(KeyCode::Left) == scrolled(0, y)
        }),
{
    lemma_scrolling(app, KeyCode::Down, newest, queue);
    lemma_scrolling(app, KeyCode::PageDown, newest, queue);
    lemma_scrolling(app, KeyCode::Home, newest, queue);
    lemma_scrolling(app, KeyCode::Right, newest, queue);
    lemma_scrolling(app, KeyCode::Up, newest, queue);
    lemma_scrolling(app, KeyCode::PageUp, newest, queue);
    lemma_scrolling(app, KeyCode::Left, newest, queue);
}

/// How a key scrolls.
proof fn lemma_scrolling(app: AppView, code: KeyCode, newest: u64, queue: QueueView)
    requires
        app.mode != Mode::Filter,
        app.focus == Focus::Content,
        0 <= app.active().selected < app.filtered().len(),
        code != KeyCode::Esc && !(code is Char),
    ensures
        pressed(app, code, newest, queue).active() == (TabView {
            selected: app.active().selected,
            ..plain_keyed(app, alone(code)).active()
        }),
{
    let next = plain_keyed(app, alone(code));
    assert(next.filtered() == app.filtered());
    assert(next.active().selected == app.active().selected);
    lemma_settling(next, queue);
}

/// Where the sidebar has the focus, the keys go from item to item: down to the next
/// and up to the one before, the ends of the list standing, with the content of the
/// item from its first line.
pub proof fn law_keys_go_from_item_to_item(app: AppView, newest: u64, queue: QueueView)
    requires
        app.mode != Mode::Filter,
        app.focus == Focus::Navigation,
        0 <= app.active().selected < app.filtered().len(),
    ensures
        ({
            let items = app.filtered();
            let at = app.active().selected;
            let down = pressed(app, KeyCode::Down, newest, queue);
            let up = pressed(app, KeyCode::Up, newest, queue);
            &&& down.selected_item() == Some(
                items[if at + 1 < items.len() {
                    at + 1
                } else {
                    at
                }],
            )
            &&& up.selected_item() == Some(
                items[if at > 0 {
                    at - 1
                } else {
                    at
                }],
            )
            &&& down.active().scroll_y == 0
            &&& up.active().scroll_y == 0
            &&& down.filtered() == items
            &&& up.filtered() == items
        }),
{
    let lower = plain_keyed(app, alone(KeyCode::Down));
    let upper = plain_keyed(app, alone(KeyCode::Up));
    assert(lower.filtered() == app.filtered());
    assert(upper.filtered() == app.filtered());
    lemma_settling(lower, queue);
    lemma_settling(upper, queue);
}

/// What is typed while the filter is open stands in the filter, at its end, and the
/// first item that is left is selected; Backspace takes back what was typed last,
/// and Enter keeps the filter.
pub proof fn law_the_filter_is_typed(app: AppView, c: char, newest: u64, queue: QueueView)
    requires
        app.mode == Mode::Filter,
    ensures
        ({
            let typed = pressed(app, KeyCode::Char(c), newest, queue);
            let taken_back = pressed(typed, KeyCode::Backspace, newest, queue);
            let kept = pressed(typed, KeyCode::Enter, newest, queue);
            &&& typed.mode == Mode::Filter
            &&& typed.active().filter == app.active().filter.push(c)
            &&& typed.active().selected == 0
            &&& taken_back.active().filter == app.active().filter
            &&& taken_back.mode == Mode::Filter
            &&& kept.active().filter == typed.active().filter
            &&& kept.mode == Mode::Normal
            &&& app.active().filter.len() == 0 ==> pressed(
                app,
                KeyCode::Backspace,
                newest,
                queue,
            ).active().filter == app.active().filter
            &&& !keyed(app, alone(KeyCode::Char(c)), newest, queue).3
        }),
{
    let typed = pressed(app, KeyCode::Char(c), newest, queue);
    assert(typed.active().filter.drop_last() =~= app.active().filter);
}

/// What the keys with a meaning of their own do: `1` and `2` show the changes and
/// the files, `/` opens the filter, `?` the help, and closes it again, Tab hands the
/// focus to the other side, `b` hides the sidebar or shows it, and `q` closes the
/// viewer and changes nothing.
pub proof fn law_keys_do_what_they_stand_for(app: AppView, newest: u64, queue: QueueView)
    requires
        app.mode != Mode::Filter,
    ensures
        ({
            let after = |code: KeyCode| pressed(app, code, newest, queue);
            &&& after(KeyCode::Char('1')).tab == Tab::Changes
            &&& after(KeyCode::Char('2')).tab == Tab::Files
            &&& after(KeyCode::Char('1')).focus == app.focus
            &&& after(KeyCode::Char('2')).focus == app.focus
            &&& after(KeyCode::Char('1')).selection is None
            &&& after(KeyCode::Char('2')).selection is None
            &&& after(KeyCode::Char('/')).mode == Mode::Filter
            &&& after(KeyCode::Char('/')).active().filter == app.active().filter
            &&& after(KeyCode::Char('?')).mode == Mode::Help <==> app.mode == Mode::Normal
            &&& after(KeyCode::Char('?')).mode == Mode::Normal <==> app.mode == Mode::Help
            &&& after(KeyCode::Tab).focus == Focus::Content <==> app.focus == Focus::Navigation
            &&& after(KeyCode::Tab).tab == app.tab
            &&& after(KeyCode::Char('b')).sidebar_hidden == !app.sidebar_hidden
            &&& keyed(app, alone(KeyCode::Char('q')), newest, queue) == (app, newest, queue, true)
        }),
{
    lemma_settling(plain_keyed(app, alone(KeyCode::Char('1'))), queue);
    lemma_settling(plain_keyed(app, alone(KeyCode::Char('2'))), queue);
    lemma_settling(plain_keyed(app, alone(KeyCode::Char('/'))), queue);
    lemma_settling(plain_keyed(app, alone(KeyCode::Char('?'))), queue);
    lemma_settling(plain_keyed(app, alone(KeyCode::Char('b'))), queue);
    lemma_settling(plain_keyed(app, alone(KeyCode::Tab)), queue);
}

/// In the tab of the changes `g` goes over to the other kind of changes, from the
/// first of them on, and back; among the files it does nothing but what follows
/// every key.
pub proof fn law_g_goes_over_to_the_other_changes(app: AppView, newest: u64, queue: QueueView)
    requires
        app.mode != Mode::Filter,
    ensures
        ({
            let once = pressed(app, KeyCode::Char('g'), newest, queue);
            let twice = pressed(once, KeyCode::Char('g'), newest, queue);
            &&& app.tab == Tab::Changes ==> once.changes_mode != app.changes_mode
                && once.active().selected == 0 && once.active().scroll_y == 0
                && once.active().scroll_x == 0 && once.active().filter == app.active().filter
            &&& app.tab == Tab::Files ==> once == after_request(clamped(app), queue).0
            &&& twice.changes_mode == app.changes_mode
            &&& once.tab == app.tab
        }),
{
    let once = pressed(app, KeyCode::Char('g'), newest, queue);
    lemma_settling(plain_keyed(app, alone(KeyCode::Char('g'))), queue);
    lemma_settling(plain_keyed(once, alone(KeyCode::Char('g'))), queue);
}

/// Of the keys only `q` and Escape close the viewer, only `r` asks for a scan, and a
/// key without a meaning does nothing but what follows every key.
pub proof fn law_other_keys_do_nothing(app: AppView, key: KeyEvent, newest: u64, queue: QueueView)
    requires
        app.mode != Mode::Filter,
    ensures
        keyed(app, key, newest, queue).3 ==> key.code == KeyCode::Char('q') || key.code
            == KeyCode::Esc,
        keyed(app, key, newest, queue).1 != newest ==> key.code == KeyCode::Char('r'),
        !key.command && (key.code == KeyCode::Other || key.code == KeyCode::Backspace || (
        key.code matches KeyCode::Char(c) && !"?12gb/kjhlqr"@.contains(c))) ==> keyed(
            app,
            key,
            newest,
            queue,
        ).0 == after_request(clamped(app), queue).0,
{
    reveal_strlit("?12gb/kjhlqr");
    let named = "?12gb/kjhlqr"@;
    assert(named[0] == '?' && named[1] == '1' && named[2] == '2' && named[3] == 'g' && named[4]
        == 'b' && named[5] == '/' && named[6] == 'k' && named[7] == 'j' && named[8] == 'h'
        && named[9] == 'l' && named[10] == 'q' && named[11] == 'r');
}

} // verus!

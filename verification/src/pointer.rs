//! What the mouse does.
use vstd::prelude::*;

use crate::app::{
    clamped, App, AppView, ChangesMode, EditorCursor, EditorSelection, Focus, Mode, TabView,
};
use crate::cache::cached;
use crate::diff::{DiffLine, DiffLineView};
use crate::diffview::{diff_content_dimensions, diff_size, lines_view};
use crate::layout::{
    bordered_inner, contains, content_areas, content_part, inside_border, minus, scrollbar_part,
    spec_min, Axis, Rect, UiLayout,
};
use crate::keys::same_files;
use crate::model::{copy_path, ChangeKind};
use crate::navigation::{NavigationRow, RowView};
use crate::path::components;
use crate::queue::{QueueView, TaskQueue};
use crate::requests::after_request;
use crate::scrollbar::{
    compact_horizontal_scrollbar_viewport, compact_viewport, drag_thumb, dragged, geometry,
    grab_thumb, grabbed, scrollbar_geometry, ContentScrollbarMetrics, ScrollbarDrag,
    ScrollbarGeometry,
};
use crate::selection::{
    bounds, copied, cursor_at, layout_fits, layout_for, selected_piece, selected_text,
    selected_until, selection_begun, selection_extended, shown_lines,
};
use crate::seqs::{first_index, lemma_first_index, lemma_first_index_is, option_view, views};
use crate::sets::{toggled, Tab};
use crate::sidebar::{
    cursor_folder, entries, folder_toggled, lemma_row_shows_folder,
    lemma_toggling_keeps_folder_rows, row_at, sidebar_bar, sidebar_offset, sidebar_rows,
};
use crate::sort::as_ints;
use crate::source::{source_content_dimensions, source_views, widest, SourceLines};
use crate::width::plus;

verus! {

/// What the mouse did.
#[derive(Clone, Copy, Debug, PartialEq, Eq, Structural)]
pub enum MouseEventKind {
    LeftDown,
    LeftDrag,
    LeftUp,
    Moved,
    ScrollUp,
    ScrollDown,
    ScrollLeft,
    ScrollRight,
    Other,
}

/// What the mouse did, and at which cell.
#[derive(Clone, Copy, Debug, PartialEq, Eq, Structural)]
pub struct MouseEvent {
    pub kind: MouseEventKind,
    pub column: u16,
    pub row: u16,
}

/// The tab whose title is at a cell.
pub open spec fn title_at(area: Rect, column: u16, row: u16) -> Option<Tab> {
    if !area.holds(column, row) {
        None
    } else if column - area.x < CHANGES_TITLE_WIDTH + 1 {
        Some(Tab::Changes)
    } else if column - area.x < CHANGES_TITLE_WIDTH + 1 + FILES_TITLE_WIDTH {
        Some(Tab::Files)
    } else {
        None
    }
}

/// Cells of the title of the first tab, with a space on either side.
pub const CHANGES_TITLE_WIDTH: u16 = 11;

/// Cells of the title of the second tab, with a space on either side.
pub const FILES_TITLE_WIDTH: u16 = 9;

/// The tab whose title is at a cell.
pub fn tab_at(area: Rect, column: u16, row: u16) -> (tab: Option<Tab>)
    ensures
        tab == title_at(area, column, row),
{
    if !contains(area, column, row) {
        return None;
    }
    let relative = column - area.x;
    if relative < CHANGES_TITLE_WIDTH + 1 {
        Some(Tab::Changes)
    } else if relative < CHANGES_TITLE_WIDTH + 1 + FILES_TITLE_WIDTH {
        Some(Tab::Files)
    } else {
        None
    }
}

/// A change whose diff is shown, and its lines where they have been read.
pub ghost struct ShownDiff {
    pub kind: ChangeKind,
    pub path: Seq<u8>,
    pub old_path: Option<Seq<u8>>,
    pub lines: Option<Seq<DiffLineView>>,
}

pub open spec fn cached_lines(lines: Option<Vec<DiffLine>>) -> Option<Seq<DiffLineView>> {
    match lines {
        Some(all) => Some(views(all@)),
        None => None,
    }
}

/// The change at an index, as it is shown.
pub open spec fn shown_diff(app: AppView, selected: int) -> Option<ShownDiff> {
    match app.changes_mode {
        ChangesMode::Agent => if 0 <= selected < app.changes.len() {
            Some(
                ShownDiff {
                    kind: app.changes[selected].kind,
                    path: app.changes[selected].path,
                    old_path: app.changes[selected].old_path,
                    lines: cached_lines(cached(app.diff_cache, selected as usize)),
                },
            )
        } else {
            None
        },
        ChangesMode::Git => if 0 <= selected < app.git_changes.len() {
            Some(
                ShownDiff {
                    kind: app.git_changes[selected].kind,
                    path: app.git_changes[selected].path,
                    old_path: app.git_changes[selected].old_path,
                    lines: cached_lines(cached(app.git_diff_cache, selected as usize)),
                },
            )
        } else {
            None
        },
    }
}

/// A change whose diff is shown, and its lines where they have been read.
#[derive(Debug)]
pub struct SelectedDiff<'a> {
    pub kind: ChangeKind,
    pub path: &'a Vec<u8>,
    pub old_path: &'a Option<Vec<u8>>,
    pub lines: Option<&'a Vec<DiffLine>>,
}

impl<'a> View for SelectedDiff<'a> {
    type V = ShownDiff;

    open spec fn view(&self) -> ShownDiff {
        ShownDiff {
            kind: self.kind,
            path: self.path@,
            old_path: option_view(*self.old_path),
            lines: lines_view(self.lines),
        }
    }
}

/// Rows and columns of what a panel shows; `None` where nothing scrolls.
pub open spec fn content_size(app: AppView, selected: int) -> Option<(int, int)> {
    match app.tab {
        Tab::Changes => match shown_diff(app, selected) {
            Some(shown) => Some(diff_size(shown.kind, shown.path, shown.old_path, shown.lines)),
            None => None,
        },
        Tab::Files => if cached(app.source_notices, selected as usize) is Some {
            None
        } else {
            match cached(app.source_cache, selected as usize) {
                Some(lines) => Some(
                    (
                        lines@.len() as int,
                        widest(source_views(lines@), lines@.len() as int),
                    ),
                ),
                None => None,
            }
        },
    }
}

/// The scrollbars of a panel.
pub open spec fn scrollbars(app: AppView, panel_area: Rect, selected: int) -> Option<
    ContentScrollbarMetrics,
> {
    let inner = inside_border(panel_area);
    let content = content_part(inner);
    if inner.empty() {
        None
    } else {
        match content_size(app, selected) {
            None => None,
            Some((rows, columns)) => Some(
                ContentScrollbarMetrics {
                    vertical: geometry(
                        Axis::Vertical,
                        content,
                        rows,
                        content.height as int,
                        content.height as int,
                        app.active().scroll_y,
                    ),
                    horizontal: geometry(
                        Axis::Horizontal,
                        scrollbar_part(inner),
                        columns,
                        content.width as int,
                        compact_viewport(content.width as int),
                        app.active().scroll_x,
                    ),
                },
            ),
        }
    }
}

/// The scrollbars of the panel for what is selected.
pub open spec fn selected_scrollbars(app: AppView, panel_area: Rect) -> Option<
    ContentScrollbarMetrics,
> {
    match app.selected_item() {
        Some(selected) => scrollbars(app, panel_area, selected),
        None => None,
    }
}

pub open spec fn grab_on(
    pane: Focus,
    axis: Axis,
    bar: Option<ScrollbarGeometry>,
    column: u16,
    row: u16,
) -> Option<ScrollbarDrag> {
    match bar {
        Some(geometry) => if geometry.bar.holds(column, row) {
            match grabbed(
                geometry,
                match axis {
                    Axis::Vertical => row as int,
                    Axis::Horizontal => column as int,
                },
            ) {
                Some(offset) => Some(ScrollbarDrag { pane, axis, grab_offset: offset as usize }),
                None => None,
            }
        } else {
            None
        },
        None => None,
    }
}

/// The thumb under a cell.
pub open spec fn thumb_at(app: AppView, panel_area: Rect, column: u16, row: u16) -> Option<
    ScrollbarDrag,
> {
    match selected_scrollbars(app, panel_area) {
        None => None,
        Some(bars) => match grab_on(Focus::Content, Axis::Vertical, bars.vertical, column, row) {
            Some(drag) => Some(drag),
            None => grab_on(Focus::Content, Axis::Horizontal, bars.horizontal, column, row),
        },
    }
}

/// Whether a cell is on a scrollbar.
pub open spec fn on_scrollbar(app: AppView, panel_area: Rect, column: u16, row: u16) -> bool {
    match selected_scrollbars(app, panel_area) {
        None => false,
        Some(bars) => (bars.vertical matches Some(bar) && bar.bar.holds(column, row)) || (
        bars.horizontal matches Some(bar) && bar.bar.holds(column, row)),
    }
}

/// The scrollbar whose thumb is dragged, where it is still on the screen.
pub open spec fn bar_dragged(app: AppView, layout: UiLayout, drag: ScrollbarDrag) -> Option<
    ScrollbarGeometry,
> {
    match drag.pane {
        Focus::Navigation => match layout.navigation {
            None => None,
            Some(area) => sidebar_bar(app, area),
        },
        Focus::Content => match layout.content {
            None => None,
            Some(area) => match selected_scrollbars(app, area) {
                None => None,
                Some(bars) => match drag.axis {
                    Axis::Vertical => bars.vertical,
                    Axis::Horizontal => bars.horizontal,
                },
            },
        },
    }
}

/// The viewer with a thumb dragged to a cell.
pub open spec fn drag_moved(app: AppView, layout: UiLayout, column: u16, row: u16) -> AppView {
    match app.scrollbar_drag {
        None => app,
        Some(drag) => match bar_dragged(app, layout, drag) {
            None => AppView { scrollbar_drag: None, ..app },
            Some(geometry) => {
                let state = app.active();
                let down = dragged(geometry, drag.grab_offset as int, row as int);
                let across = dragged(geometry, drag.grab_offset as int, column as int);
                app.with_active(
                    match (drag.pane, drag.axis) {
                        (Focus::Navigation, _) => TabView { list_scroll_y: down, ..state },
                        (Focus::Content, Axis::Vertical) => TabView { scroll_y: down, ..state },
                        (Focus::Content, Axis::Horizontal) => TabView { scroll_x: across, ..state },
                    },
                )
            },
        },
    }
}

/// The viewer after the mouse while a thumb is dragged, and whether that is all
/// that the mouse did.
pub open spec fn drag_handled(app: AppView, layout: UiLayout, mouse: MouseEvent) -> (AppView, bool) {
    if app.scrollbar_drag is None {
        (app, false)
    } else {
        match mouse.kind {
            MouseEventKind::LeftDrag => (
                drag_moved(app, layout, mouse.column, mouse.row),
                true,
            ),
            MouseEventKind::Moved => (drag_moved(app, layout, mouse.column, mouse.row), true),
            MouseEventKind::LeftUp => (AppView { scrollbar_drag: None, ..app }, true),
            _ => (AppView { scrollbar_drag: None, ..app }, false),
        }
    }
}

/// The viewer after the left button on a scrollbar of the panel, and whether it
/// was on one.
pub open spec fn scrollbar_pressed(app: AppView, area: Rect, mouse: MouseEvent) -> (AppView, bool) {
    let pressed = mouse.kind == MouseEventKind::LeftDown;
    if !(pressed || mouse.kind == MouseEventKind::LeftDrag || mouse.kind
        == MouseEventKind::LeftUp) {
        (app, false)
    } else if pressed && thumb_at(app, area, mouse.column, mouse.row) is Some {
        (
            AppView {
                focus: Focus::Content,
                scrollbar_drag: thumb_at(app, area, mouse.column, mouse.row),
                ..app
            },
            true,
        )
    } else if on_scrollbar(app, area, mouse.column, mouse.row) {
        (AppView { focus: Focus::Content, ..app }, true)
    } else {
        (app, false)
    }
}

impl App {
    /// The change at an index, as it is shown.
    pub fn selected_diff(&self, selected: usize) -> (shown: Option<SelectedDiff<'_>>)
        ensures
            option_view(shown) == shown_diff(self@, selected as int),
    {
        match self.changes_mode {
            ChangesMode::Agent => {
                if selected >= self.changes.len() {
                    return None;
                }
                let change = &self.changes[selected];
                Some(
                    SelectedDiff {
                        kind: change.kind,
                        path: &change.path,
                        old_path: &change.old_path,
                        lines: self.diff_cache.get(&selected),
                    },
                )
            },
            ChangesMode::Git => {
                if selected >= self.git_changes.len() {
                    return None;
                }
                let change = &self.git_changes[selected];
                Some(
                    SelectedDiff {
                        kind: change.kind,
                        path: &change.path,
                        old_path: &change.old_path,
                        lines: self.git_diff_cache.get(&selected),
                    },
                )
            },
        }
    }

    fn content_dimensions(&self, selected: usize) -> (size: Option<(usize, usize)>)
        ensures
            (match size {
                Some((rows, columns)) => Some((rows as int, columns as int)),
                None => None,
            }) == content_size(self@, selected as int),
    {
        match self.tab {
            Tab::Changes => match self.selected_diff(selected) {
                Some(shown) => Some(
                    diff_content_dimensions(shown.kind, shown.path, shown.old_path, shown.lines),
                ),
                None => None,
            },
            Tab::Files => {
                if self.source_notices.get(&selected).is_some() {
                    return None;
                }
                match self.source_cache.get(&selected) {
                    Some(lines) => Some(source_content_dimensions(lines)),
                    None => None,
                }
            },
        }
    }

    /// The scrollbars of a panel.
    pub fn content_scrollbar_metrics(&self, panel_area: Rect, selected: usize) -> (metrics: Option<
        ContentScrollbarMetrics,
    >)
        requires
            panel_area.fits(),
        ensures
            metrics == scrollbars(self@, panel_area, selected as int),
    {
        let inner = bordered_inner(panel_area);
        if inner.is_empty() {
            return None;
        }
        let (content, below) = content_areas(inner);
        let (rows, columns) = match self.content_dimensions(selected) {
            None => {
                return None;
            },
            Some(size) => size,
        };
        Some(
            ContentScrollbarMetrics {
                vertical: scrollbar_geometry(
                    Axis::Vertical,
                    content,
                    rows,
                    content.height as usize,
                    content.height as usize,
                    self.active_state().scroll_y,
                ),
                horizontal: scrollbar_geometry(
                    Axis::Horizontal,
                    below,
                    columns,
                    content.width as usize,
                    compact_horizontal_scrollbar_viewport(content.width as usize),
                    self.active_state().scroll_x,
                ),
            },
        )
    }

    fn selected_metrics(&self, panel_area: Rect) -> (metrics: Option<ContentScrollbarMetrics>)
        requires
            panel_area.fits(),
        ensures
            metrics == selected_scrollbars(self@, panel_area),
    {
        match self.actual_selected() {
            Some(selected) => self.content_scrollbar_metrics(panel_area, selected),
            None => None,
        }
    }

    fn content_scrollbar_at(&self, panel_area: Rect, column: u16, row: u16) -> (drag: Option<
        ScrollbarDrag,
    >)
        requires
            panel_area.fits(),
        ensures
            drag == thumb_at(self@, panel_area, column, row),
    {
        let metrics = match self.selected_metrics(panel_area) {
            None => {
                return None;
            },
            Some(metrics) => metrics,
        };
        if let Some(bar) = metrics.vertical {
            if contains(bar.bar, column, row) {
                if let Some(offset) = grab_thumb(&bar, row) {
                    return Some(
                        ScrollbarDrag {
                            pane: Focus::Content,
                            axis: Axis::Vertical,
                            grab_offset: offset,
                        },
                    );
                }
            }
        }
        if let Some(bar) = metrics.horizontal {
            if contains(bar.bar, column, row) {
                if let Some(offset) = grab_thumb(&bar, column) {
                    return Some(
                        ScrollbarDrag {
                            pane: Focus::Content,
                            axis: Axis::Horizontal,
                            grab_offset: offset,
                        },
                    );
                }
            }
        }
        None
    }

    fn content_scrollbar_contains(&self, panel_area: Rect, column: u16, row: u16) -> (inside: bool)
        requires
            panel_area.fits(),
        ensures
            inside == on_scrollbar(self@, panel_area, column, row),
    {
        let metrics = match self.selected_metrics(panel_area) {
            None => {
                return false;
            },
            Some(metrics) => metrics,
        };
        let on_vertical = match metrics.vertical {
            Some(bar) => contains(bar.bar, column, row),
            None => false,
        };
        let on_horizontal = match metrics.horizontal {
            Some(bar) => contains(bar.bar, column, row),
            None => false,
        };
        on_vertical || on_horizontal
    }

    fn dragged_scrollbar(&self, layout: UiLayout, drag: ScrollbarDrag) -> (bar: Option<
        ScrollbarGeometry,
    >)
        requires
            layout_fits(layout),
        ensures
            bar == bar_dragged(self@, layout, drag),
    {
        match drag.pane {
            Focus::Navigation => match layout.navigation {
                None => None,
                Some(area) => self.navigation_scrollbar(area),
            },
            Focus::Content => match layout.content {
                None => None,
                Some(area) => match self.selected_metrics(area) {
                    None => None,
                    Some(bars) => match drag.axis {
                        Axis::Vertical => bars.vertical,
                        Axis::Horizontal => bars.horizontal,
                    },
                },
            },
        }
    }

    fn update_scrollbar_drag(&mut self, layout: UiLayout, column: u16, row: u16)
        requires
            old(self)@.well_formed(),
            layout_fits(layout),
        ensures
            final(self)@ == drag_moved(old(self)@, layout, column, row),
            final(self)@.well_formed(),
    {
        let drag = match self.scrollbar_drag {
            None => {
                return;
            },
            Some(drag) => drag,
        };
        match self.dragged_scrollbar(layout, drag) {
            None => {
                self.scrollbar_drag = None;
            },
            Some(geometry) => match (drag.pane, drag.axis) {
                (Focus::Navigation, _) => {
                    let scroll = drag_thumb(&geometry, drag.grab_offset, row);
                    self.active_state_mut().list_scroll_y = scroll;
                },
                (Focus::Content, Axis::Vertical) => {
                    let scroll = drag_thumb(&geometry, drag.grab_offset, row);
                    self.active_state_mut().scroll_y = scroll;
                },
                (Focus::Content, Axis::Horizontal) => {
                    let scroll = drag_thumb(&geometry, drag.grab_offset, column);
                    self.active_state_mut().scroll_x = scroll;
                },
            },
        }
    }

    fn handle_active_scrollbar_drag(&mut self, layout: UiLayout, mouse: MouseEvent) -> (done: bool)
        requires
            old(self)@.well_formed(),
            layout_fits(layout),
        ensures
            (final(self)@, done) == drag_handled(old(self)@, layout, mouse),
            final(self)@.well_formed(),
    {
        if self.scrollbar_drag.is_none() {
            return false;
        }
        match mouse.kind {
            MouseEventKind::LeftDrag => {
                self.update_scrollbar_drag(layout, mouse.column, mouse.row);
                true
            },
            MouseEventKind::Moved => {
                self.update_scrollbar_drag(layout, mouse.column, mouse.row);
                true
            },
            MouseEventKind::LeftUp => {
                self.scrollbar_drag = None;
                true
            },
            _ => {
                self.scrollbar_drag = None;
                false
            },
        }
    }

    fn handle_content_scrollbar_mouse(&mut self, area: Rect, mouse: MouseEvent) -> (done: bool)
        requires
            old(self)@.well_formed(),
            area.fits(),
        ensures
            (final(self)@, done) == scrollbar_pressed(old(self)@, area, mouse),
            final(self)@.well_formed(),
    {
        let pressed = mouse.kind == MouseEventKind::LeftDown;
        if !(pressed || mouse.kind == MouseEventKind::LeftDrag || mouse.kind
            == MouseEventKind::LeftUp) {
            return false;
        }
        if pressed {
            if let Some(drag) = self.content_scrollbar_at(area, mouse.column, mouse.row) {
                self.focus = Focus::Content;
                self.scrollbar_drag = Some(drag);
                return true;
            }
        }
        if self.content_scrollbar_contains(area, mouse.column, mouse.row) {
            self.focus = Focus::Content;
            return true;
        }
        false
    }
}

/// The place of an item in a list of indices.
pub open spec fn place_of(indices: Seq<int>, index: int) -> int {
    let k = first_index(indices, index);
    if k < indices.len() {
        k
    } else {
        index
    }
}

pub open spec fn without_cursor(app: AppView) -> AppView {
    AppView { cursor: None, selection: None, ..app }
}

/// The viewer and the queue after a row of the sidebar was pressed.
pub open spec fn row_pressed(app: AppView, row: RowView, pressed: bool, queue: QueueView) -> (
    AppView,
    QueueView,
) {
    let next = AppView { focus: Focus::Navigation, ..without_cursor(app) };
    match row {
        RowView::File { index, .. } => after_request(
            next.with_active(
                TabView {
                    selected: place_of(next.filtered(), index),
                    scroll_y: 0,
                    folder: None,
                    ..next.active()
                },
            ),
            queue,
        ),
        RowView::Status { .. } => (next, queue),
        RowView::Group { path, .. } => (
            if pressed {
                folder_toggled(
                    next.with_active(TabView { folder: Some(path), ..next.active() }),
                    path,
                )
            } else {
                next
            },
            queue,
        ),
    }
}

/// The viewer with the sidebar scrolled by the wheel.
pub open spec fn sidebar_wheeled(app: AppView, area: Rect, kind: MouseEventKind) -> AppView {
    let next = AppView { focus: Focus::Navigation, ..app };
    let state = next.active();
    let most = minus(sidebar_rows(next).len() as int, inside_border(area).height as int);
    match kind {
        MouseEventKind::ScrollUp => next.with_active(
            TabView { list_scroll_y: minus(state.list_scroll_y, 1), ..state },
        ),
        MouseEventKind::ScrollDown => next.with_active(
            TabView { list_scroll_y: spec_min(plus(state.list_scroll_y, 1), most), ..state },
        ),
        _ => next,
    }
}

/// The viewer after the left button on the scrollbar of the sidebar, and whether
/// it was on it.
pub open spec fn sidebar_bar_pressed(app: AppView, area: Rect, mouse: MouseEvent) -> (
    AppView,
    bool,
) {
    let bar = sidebar_bar(app, area);
    if is_left(mouse.kind) && bar is Some && bar->0.bar.holds(mouse.column, mouse.row) {
        let focused = AppView { focus: Focus::Navigation, ..app };
        (
            if mouse.kind == MouseEventKind::LeftDown {
                AppView {
                    scrollbar_drag: grab_on(
                        Focus::Navigation,
                        Axis::Vertical,
                        bar,
                        mouse.column,
                        mouse.row,
                    ),
                    ..focused
                }
            } else {
                focused
            },
            true,
        )
    } else {
        (app, false)
    }
}

/// The viewer and the queue after the mouse in the sidebar, and whether it was
/// there.
pub open spec fn sidebar_moused(
    app: AppView,
    area: Rect,
    mouse: MouseEvent,
    queue: QueueView,
) -> (AppView, QueueView, bool) {
    let pressed = mouse.kind == MouseEventKind::LeftDown;
    let row = row_at(app, area, mouse.column, mouse.row);
    let (held, on_bar) = sidebar_bar_pressed(app, area, mouse);
    if on_bar {
        (held, queue, true)
    } else if (pressed || mouse.kind == MouseEventKind::LeftDrag) && row is Some {
        let (next, tasks) = row_pressed(app, row->Some_0, pressed, queue);
        (next, tasks, true)
    } else if area.holds(mouse.column, mouse.row) {
        (sidebar_wheeled(app, area, mouse.kind), queue, true)
    } else {
        (app, queue, false)
    }
}

/// The viewer with its content scrolled by the wheel.
pub open spec fn content_wheeled(app: AppView, kind: MouseEventKind) -> AppView {
    let state = app.active();
    let focused = AppView { focus: Focus::Content, ..app };
    match kind {
        MouseEventKind::ScrollUp => focused.with_active(
            TabView { scroll_y: minus(state.scroll_y, 3), ..state },
        ),
        MouseEventKind::ScrollDown => focused.with_active(
            TabView { scroll_y: plus(state.scroll_y, 3), ..state },
        ),
        MouseEventKind::ScrollLeft => focused.with_active(
            TabView { scroll_x: minus(state.scroll_x, 3), ..state },
        ),
        MouseEventKind::ScrollRight => focused.with_active(
            TabView { scroll_x: plus(state.scroll_x, 3), ..state },
        ),
        _ => app,
    }
}

/// The viewer after the left button in the content.
pub open spec fn content_pressed(app: AppView, area: Rect, mouse: MouseEvent) -> AppView {
    let focused = AppView { focus: Focus::Content, ..app };
    if mouse.kind == MouseEventKind::LeftDown {
        selection_begun(focused, area, mouse.column, mouse.row)
    } else {
        let extended = selection_extended(focused, area, mouse.column, mouse.row);
        if mouse.kind == MouseEventKind::LeftUp {
            copied(extended)
        } else {
            extended
        }
    }
}

pub open spec fn is_left(kind: MouseEventKind) -> bool {
    kind == MouseEventKind::LeftDown || kind == MouseEventKind::LeftDrag || kind
        == MouseEventKind::LeftUp
}

/// The viewer and the queue after the mouse outside the sidebar.
pub open spec fn content_moused(
    app: AppView,
    area: Rect,
    mouse: MouseEvent,
    queue: QueueView,
) -> (AppView, QueueView) {
    let (pressed, on_bar) = scrollbar_pressed(app, area, mouse);
    if on_bar {
        (pressed, queue)
    } else if !area.holds(mouse.column, mouse.row) {
        (app, queue)
    } else if is_left(mouse.kind) {
        after_request(content_pressed(app, area, mouse), queue)
    } else {
        (content_wheeled(app, mouse.kind), queue)
    }
}

/// The viewer and the queue after the mouse in the sidebar or the content.
pub open spec fn body_moused(
    app: AppView,
    layout: UiLayout,
    mouse: MouseEvent,
    queue: QueueView,
) -> (AppView, QueueView) {
    let (first, filled, done) = match layout.navigation {
        Some(area) => sidebar_moused(app, area, mouse, queue),
        None => (app, queue, false),
    };
    if done {
        (first, filled)
    } else {
        match layout.content {
            Some(area) => content_moused(app, area, mouse, queue),
            None => (app, queue),
        }
    }
}

/// The viewer and the queue after the title of a tab was pressed.
pub open spec fn title_pressed(app: AppView, tab: Tab, queue: QueueView) -> (AppView, QueueView) {
    after_request(
        clamped(AppView { tab, focus: Focus::Navigation, ..without_cursor(app) }),
        queue,
    )
}

/// The viewer and the queue after the mouse, with the screen laid out as given.
pub open spec fn moused(app: AppView, layout: UiLayout, mouse: MouseEvent, queue: QueueView) -> (
    AppView,
    QueueView,
) {
    let pressed = mouse.kind == MouseEventKind::LeftDown;
    if app.mode == Mode::Help {
        (
            if pressed {
                AppView { mode: Mode::Normal, ..app }
            } else {
                app
            },
            queue,
        )
    } else {
        let normal = if pressed {
            AppView { mode: Mode::Normal, ..app }
        } else {
            app
        };
        let (next, done) = drag_handled(normal, layout, mouse);
        let title = title_at(layout.tabs, mouse.column, mouse.row);
        if done {
            (next, queue)
        } else if (pressed || mouse.kind == MouseEventKind::LeftDrag) && title is Some {
            if pressed {
                title_pressed(next, title->Some_0, queue)
            } else {
                (next, queue)
            }
        } else {
            body_moused(next, layout, mouse, queue)
        }
    }
}

impl App {
    fn press_row(&mut self, row: NavigationRow, pressed: bool, tasks: &mut TaskQueue)
        requires
            old(self)@.well_formed(),
        ensures
            (final(self)@, final(tasks)@) == row_pressed(
                old(self)@,
                row@,
                pressed,
                old(tasks)@,
            ),
            final(self)@.well_formed(),
    {
        self.focus = Focus::Navigation;
        self.cursor = None;
        self.selection = None;
        match row {
            NavigationRow::File { index, .. } => {
                let indices = self.filtered_indices();
                let ghost all = as_ints(indices@);
                let mut k: usize = 0;
                while k < indices.len() && indices[k] != index
                    invariant
                        k <= indices@.len(),
                        all == as_ints(indices@),
                        forall|j: int| 0 <= j < k ==> all[j] != index as int,
                    decreases indices@.len() - k,
                {
                    k += 1;
                }
                proof {
                    assert(all.len() == indices@.len());
                    lemma_first_index_is(all, index as int, k as int);
                }
                let selected = if k < indices.len() {
                    k
                } else {
                    index
                };
                let state = self.active_state_mut();
                state.selected = selected;
                state.scroll_y = 0;
                state.folder = None;
                self.request_selected(tasks);
            },
            NavigationRow::Status { .. } => {},
            NavigationRow::Group { path, .. } => {
                if pressed {
                    self.active_state_mut().folder = Some(copy_path(&path));
                    self.toggle_group(&path);
                }
            },
        }
    }

    fn wheel_sidebar(&mut self, area: Rect, kind: MouseEventKind)
        requires
            old(self)@.well_formed(),
        ensures
            final(self)@ == sidebar_wheeled(old(self)@, area, kind),
            final(self)@.well_formed(),
    {
        self.focus = Focus::Navigation;
        match kind {
            MouseEventKind::ScrollUp => {
                let state = self.active_state_mut();
                state.list_scroll_y = state.list_scroll_y.saturating_sub(1);
            },
            MouseEventKind::ScrollDown => {
                let rows = self.navigation_rows();
                proof {
                    assert(views(rows@).len() == rows@.len());
                }
                let most = rows.len().saturating_sub(bordered_inner(area).height as usize);
                let state = self.active_state_mut();
                let next = state.list_scroll_y.saturating_add(1);
                state.list_scroll_y = if next < most {
                    next
                } else {
                    most
                };
            },
            _ => {},
        }
    }

    fn press_sidebar_bar(&mut self, area: Rect, mouse: MouseEvent) -> (done: bool)
        requires
            old(self)@.well_formed(),
        ensures
            (final(self)@, done) == sidebar_bar_pressed(old(self)@, area, mouse),
            final(self)@.well_formed(),
    {
        let pressed = mouse.kind == MouseEventKind::LeftDown;
        if !(pressed || mouse.kind == MouseEventKind::LeftDrag || mouse.kind
            == MouseEventKind::LeftUp) {
            return false;
        }
        if let Some(bar) = self.navigation_scrollbar(area) {
            if contains(bar.bar, mouse.column, mouse.row) {
                self.focus = Focus::Navigation;
                if pressed {
                    self.scrollbar_drag = match grab_thumb(&bar, mouse.row) {
                        Some(offset) => Some(
                            ScrollbarDrag {
                                pane: Focus::Navigation,
                                axis: Axis::Vertical,
                                grab_offset: offset,
                            },
                        ),
                        None => None,
                    };
                }
                return true;
            }
        }
        false
    }

    fn mouse_in_sidebar(&mut self, area: Rect, mouse: MouseEvent, tasks: &mut TaskQueue) -> (done:
        bool)
        requires
            old(self)@.well_formed(),
        ensures
            (final(self)@, final(tasks)@, done) == sidebar_moused(
                old(self)@,
                area,
                mouse,
                old(tasks)@,
            ),
            final(self)@.well_formed(),
    {
        if self.press_sidebar_bar(area, mouse) {
            return true;
        }
        let pressed = mouse.kind == MouseEventKind::LeftDown;
        if pressed || mouse.kind == MouseEventKind::LeftDrag {
            if let Some(row) = self.navigation_row_at(area, mouse.column, mouse.row) {
                self.press_row(row, pressed, tasks);
                return true;
            }
        }
        if contains(area, mouse.column, mouse.row) {
            self.wheel_sidebar(area, mouse.kind);
            return true;
        }
        false
    }

    fn wheel_content(&mut self, kind: MouseEventKind)
        requires
            old(self)@.well_formed(),
        ensures
            final(self)@ == content_wheeled(old(self)@, kind),
            final(self)@.well_formed(),
    {
        match kind {
            MouseEventKind::ScrollUp => {
                self.focus = Focus::Content;
                let state = self.active_state_mut();
                state.scroll_y = state.scroll_y.saturating_sub(3);
            },
            MouseEventKind::ScrollDown => {
                self.focus = Focus::Content;
                let state = self.active_state_mut();
                state.scroll_y = state.scroll_y.saturating_add(3);
            },
            MouseEventKind::ScrollLeft => {
                self.focus = Focus::Content;
                let state = self.active_state_mut();
                state.scroll_x = state.scroll_x.saturating_sub(3);
            },
            MouseEventKind::ScrollRight => {
                self.focus = Focus::Content;
                let state = self.active_state_mut();
                state.scroll_x = state.scroll_x.saturating_add(3);
            },
            _ => {},
        }
    }

    fn press_content(&mut self, area: Rect, mouse: MouseEvent)
        requires
            old(self)@.well_formed(),
            area.fits(),
        ensures
            final(self)@ == content_pressed(old(self)@, area, mouse),
            final(self)@.well_formed(),
    {
        self.focus = Focus::Content;
        if mouse.kind == MouseEventKind::LeftDown {
            self.begin_selection_at(area, mouse.column, mouse.row);
        } else {
            self.extend_selection_at(area, mouse.column, mouse.row);
            if mouse.kind == MouseEventKind::LeftUp {
                self.copy_selection();
            }
        }
    }

    fn mouse_in_content(&mut self, area: Rect, mouse: MouseEvent, tasks: &mut TaskQueue)
        requires
            old(self)@.well_formed(),
            area.fits(),
        ensures
            (final(self)@, final(tasks)@) == content_moused(
                old(self)@,
                area,
                mouse,
                old(tasks)@,
            ),
            final(self)@.well_formed(),
    {
        if self.handle_content_scrollbar_mouse(area, mouse) {
            return;
        }
        if !contains(area, mouse.column, mouse.row) {
            return;
        }
        if mouse.kind == MouseEventKind::LeftDown || mouse.kind == MouseEventKind::LeftDrag
            || mouse.kind == MouseEventKind::LeftUp {
            self.press_content(area, mouse);
            self.request_selected(tasks);
        } else {
            self.wheel_content(mouse.kind);
        }
    }

    fn press_title(&mut self, tab: Tab, tasks: &mut TaskQueue)
        requires
            old(self)@.well_formed(),
        ensures
            (final(self)@, final(tasks)@) == title_pressed(old(self)@, tab, old(tasks)@),
            final(self)@.well_formed(),
    {
        self.tab = tab;
        self.focus = Focus::Navigation;
        self.cursor = None;
        self.selection = None;
        self.clamp_selections();
        self.request_selected(tasks);
    }

    fn mouse_in_body(&mut self, layout: UiLayout, mouse: MouseEvent, tasks: &mut TaskQueue)
        requires
            old(self)@.well_formed(),
            layout_fits(layout),
        ensures
            (final(self)@, final(tasks)@) == body_moused(
                old(self)@,
                layout,
                mouse,
                old(tasks)@,
            ),
            final(self)@.well_formed(),
    {
        if let Some(area) = layout.navigation {
            if self.mouse_in_sidebar(area, mouse, tasks) {
                return;
            }
        }
        if let Some(area) = layout.content {
            self.mouse_in_content(area, mouse, tasks);
        }
    }

    /// Does what the mouse means, with the screen laid out as given.
    pub fn handle_mouse_at(
        &mut self,
        layout: UiLayout,
        mouse: MouseEvent,
        tasks: &mut TaskQueue,
    )
        requires
            old(self)@.well_formed(),
            layout_fits(layout),
        ensures
            (final(self)@, final(tasks)@) == moused(old(self)@, layout, mouse, old(tasks)@),
            final(self)@.well_formed(),
    {
        let pressed = mouse.kind == MouseEventKind::LeftDown;
        if self.mode == Mode::Help {
            if pressed {
                self.mode = Mode::Normal;
            }
            return;
        }
        if pressed {
            self.mode = Mode::Normal;
        }
        if self.handle_active_scrollbar_drag(layout, mouse) {
            return;
        }
        if pressed || mouse.kind == MouseEventKind::LeftDrag {
            if let Some(tab) = tab_at(layout.tabs, mouse.column, mouse.row) {
                if pressed {
                    self.press_title(tab, tasks);
                }
                return;
            }
        }
        self.mouse_in_body(layout, mouse, tasks);
    }

    /// Does what the mouse means on the screen as it is.
    pub fn handle_mouse(&mut self, mouse: MouseEvent, tasks: &mut TaskQueue)
        requires
            old(self)@.well_formed(),
        ensures
            exists|layout: UiLayout|
                #[trigger] layout_for(old(self)@, old(self)@.viewport, layout) && (
                final(self)@,
                final(tasks)@,
                ) == moused(old(self)@, layout, mouse, old(tasks)@),
            final(self)@.well_formed(),
    {
        let layout = self.ui_layout(self.viewport);
        self.handle_mouse_at(layout, mouse, tasks);
    }
}

proof fn lemma_requesting_only_reads(app: AppView, queue: QueueView)
    ensures
        same_files(after_request(app, queue).0, app),
{
}

proof fn lemma_sidebar_only_reads(
    app: AppView,
    area: Rect,
    mouse: MouseEvent,
    queue: QueueView,
)
    ensures
        same_files(sidebar_moused(app, area, mouse, queue).0, app),
{
    let pressed = mouse.kind == MouseEventKind::LeftDown;
    if let Some(row) = row_at(app, area, mouse.column, mouse.row) {
        let next = AppView { focus: Focus::Navigation, ..without_cursor(app) };
        if let RowView::File { index, .. } = row {
            lemma_requesting_only_reads(
                next.with_active(
                    TabView {
                        selected: place_of(next.filtered(), index),
                        scroll_y: 0,
                        folder: None,
                        ..next.active()
                    },
                ),
                queue,
            );
        }
        assert(same_files(row_pressed(app, row, pressed, queue).0, app));
    }
    assert(same_files(sidebar_wheeled(app, area, mouse.kind), app));
    assert(same_files(sidebar_bar_pressed(app, area, mouse).0, app));
}

proof fn lemma_content_only_reads(
    app: AppView,
    area: Rect,
    mouse: MouseEvent,
    queue: QueueView,
)
    ensures
        same_files(content_moused(app, area, mouse, queue).0, app),
{
    let pressed = content_pressed(app, area, mouse);
    assert(same_files(pressed, app));
    lemma_requesting_only_reads(pressed, queue);
    assert(same_files(content_wheeled(app, mouse.kind), app));
    assert(same_files(scrollbar_pressed(app, area, mouse).0, app));
}

/// A click on a folder opens it or closes it, and puts the cursor of the sidebar
/// on it; the selected item stays.
pub proof fn law_clicking_a_folder_selects_it(
    app: AppView,
    area: Rect,
    column: u16,
    row: u16,
    queue: QueueView,
)
    requires
        row_at(app, area, column, row) is Some,
        row_at(app, area, column, row)->0 is Group,
        app.active().list_scroll_y >= 0,
    ensures
        ({
            let pressed = row_at(app, area, column, row)->0;
            let folder = pressed->Group_path;
            let next = row_pressed(app, pressed, true, queue).0;
            &&& cursor_folder(next) == Some(folder)
            &&& next.collapsed_groups == toggled(
                app.collapsed_groups,
                (app.tab, components(folder)),
            )
            &&& next.focus == Focus::Navigation
            &&& next.selected_item() == app.selected_item()
        }),
{
    let pressed = row_at(app, area, column, row)->0;
    let folder = pressed->Group_path;
    let next = row_pressed(app, pressed, true, queue).0;
    let at = plus(sidebar_offset(app, area), row - inside_border(area).y);
    lemma_row_shows_folder(sidebar_rows(app), at, folder);
    assert(next.filtered() == app.filtered());
    assert(entries(next) =~= entries(app));
    lemma_toggling_keeps_folder_rows(app, next, folder);
}

/// Nothing that the mouse does changes anything of what was read from the
/// workspace.
pub proof fn law_mouse_only_reads(
    app: AppView,
    layout: UiLayout,
    mouse: MouseEvent,
    queue: QueueView,
)
    ensures
        same_files(moused(app, layout, mouse, queue).0, app),
{
    let normal = if mouse.kind == MouseEventKind::LeftDown {
        AppView { mode: Mode::Normal, ..app }
    } else {
        app
    };
    let next = drag_handled(normal, layout, mouse).0;
    assert(same_files(drag_moved(normal, layout, mouse.column, mouse.row), app));
    assert(same_files(next, app));
    if let Some(tab) = title_at(layout.tabs, mouse.column, mouse.row) {
        lemma_requesting_only_reads(
            clamped(AppView { tab, focus: Focus::Navigation, ..without_cursor(next) }),
            queue,
        );
        assert(same_files(title_pressed(next, tab, queue).0, app));
    }
    if let Some(area) = layout.navigation {
        lemma_sidebar_only_reads(next, area, mouse, queue);
    }
    if let Some(area) = layout.content {
        lemma_content_only_reads(next, area, mouse, queue);
    }
    assert(same_files(body_moused(next, layout, mouse, queue).0, app));
}

/// Whether a cell is in the content and nowhere else: not in the titles, not in the
/// sidebar or on its scrollbar, and not on a scrollbar of the content.
pub open spec fn over_content(app: AppView, layout: UiLayout, column: u16, row: u16) -> bool {
    &&& !layout.tabs.holds(column, row)
    &&& layout.navigation matches Some(area) ==> !area.holds(column, row) && (sidebar_bar(
        app,
        area,
    ) matches Some(bar) ==> !bar.bar.holds(column, row))
    &&& layout.content matches Some(area) && area.holds(column, row) && !on_scrollbar(
        app,
        area,
        column,
        row,
    )
}

/// Whether a cell is in the sidebar and nowhere else: not in the titles and not on the
/// scrollbar.
pub open spec fn over_sidebar(app: AppView, layout: UiLayout, column: u16, row: u16) -> bool {
    &&& !layout.tabs.holds(column, row)
    &&& layout.navigation matches Some(area) && area.holds(column, row) && (sidebar_bar(
        app,
        area,
    ) matches Some(bar) ==> !bar.bar.holds(column, row))
}

/// The viewer after the mouse at a cell.
pub open spec fn mouse_at(
    app: AppView,
    layout: UiLayout,
    kind: MouseEventKind,
    cell: (u16, u16),
    queue: QueueView,
) -> AppView {
    moused(app, layout, (MouseEvent { kind, column: cell.0, row: cell.1 }), queue).0
}

/// Over the content the wheel scrolls it by three lines or columns a notch, never before
/// its beginning, and gives it the focus.
pub proof fn law_the_wheel_scrolls_the_content(
    app: AppView,
    layout: UiLayout,
    cell: (u16, u16),
    queue: QueueView,
)
    requires
        app.mode != Mode::Help,
        app.scrollbar_drag is None,
        over_content(app, layout, cell.0, cell.1),
        0 <= app.active().scroll_y,
        app.active().scroll_y + 3 <= usize::MAX,
        0 <= app.active().scroll_x,
        app.active().scroll_x + 3 <= usize::MAX,
    ensures
        ({
            let y = app.active().scroll_y;
            let x = app.active().scroll_x;
            let after = |kind: MouseEventKind| mouse_at(app, layout, kind, cell, queue);
            let scrolled = |scroll_x: int, scroll_y: int|
                AppView { focus: Focus::Content, ..app }.with_active(
                    TabView { scroll_x, scroll_y, ..app.active() },
                );
            &&& after(MouseEventKind::ScrollDown) == scrolled(x, y + 3)
            &&& after(MouseEventKind::ScrollRight) == scrolled(x + 3, y)
            &&& after(MouseEventKind::ScrollUp) == scrolled(
                x,
                if y < 3 {
                    0
                } else {
                    y - 3
                },
            )
            &&& after(MouseEventKind::ScrollLeft) == scrolled(
                if x < 3 {
                    0
                } else {
                    x - 3
                },
                y,
            )
        }),
{
}

/// Over the sidebar the wheel scrolls its rows by one a notch, neither before the first
/// nor on when the last is in sight, and gives it the focus; what is selected stays.
pub proof fn law_the_wheel_scrolls_the_sidebar(
    app: AppView,
    layout: UiLayout,
    cell: (u16, u16),
    queue: QueueView,
)
    requires
        app.mode != Mode::Help,
        app.scrollbar_drag is None,
        over_sidebar(app, layout, cell.0, cell.1),
        0 <= app.active().list_scroll_y < usize::MAX,
    ensures
        ({
            let at = app.active().list_scroll_y;
            let height = inside_border(layout.navigation->0).height as int;
            let rows = sidebar_rows(app).len() as int;
            let up = mouse_at(app, layout, MouseEventKind::ScrollUp, cell, queue);
            let down = mouse_at(app, layout, MouseEventKind::ScrollDown, cell, queue);
            &&& up.active().list_scroll_y == if at > 0 {
                at - 1
            } else {
                0
            }
            &&& at + height < rows ==> down.active().list_scroll_y == at + 1
            &&& at + height == rows ==> down.active().list_scroll_y == at
            &&& up.focus == Focus::Navigation
            &&& down.focus == Focus::Navigation
            &&& up.active().selected == app.active().selected
            &&& down.active().selected == app.active().selected
            &&& up.active().scroll_y == app.active().scroll_y
            &&& down.active().scroll_y == app.active().scroll_y
        }),
{
    let focused = AppView { focus: Focus::Navigation, ..app };
    assert(focused.filtered() == app.filtered());
    assert(entries(focused) =~= entries(app));
    assert(sidebar_rows(focused) == sidebar_rows(app)) by {
        lemma_rows_without_focus(app);
    }
}

proof fn lemma_rows_without_focus(app: AppView)
    ensures
        sidebar_rows(AppView { focus: Focus::Navigation, ..app }) == sidebar_rows(app),
{
    let focused = AppView { focus: Focus::Navigation, ..app };
    assert(focused.filtered() == app.filtered());
    assert(entries(focused) =~= entries(app));
}

/// A click on a file selects that file, shows it from its first line and gives the
/// sidebar the focus.
pub proof fn law_clicking_a_file_selects_it(
    app: AppView,
    layout: UiLayout,
    cell: (u16, u16),
    queue: QueueView,
)
    requires
        app.mode != Mode::Help,
        app.scrollbar_drag is None,
        over_sidebar(app, layout, cell.0, cell.1),
        row_at(app, layout.navigation->0, cell.0, cell.1) is Some,
        row_at(app, layout.navigation->0, cell.0, cell.1)->0 is File,
        app.filtered().contains(
            row_at(app, layout.navigation->0, cell.0, cell.1)->0->File_index,
        ),
    ensures
        ({
            let row = row_at(app, layout.navigation->0, cell.0, cell.1)->0;
            let next = mouse_at(app, layout, MouseEventKind::LeftDown, cell, queue);
            &&& next.selected_item() == Some(row->File_index)
            &&& next.active().scroll_y == 0
            &&& next.focus == Focus::Navigation
            &&& next.tab == app.tab
            &&& next.mode == Mode::Normal
        }),
{
    let area = layout.navigation->0;
    let normal = AppView { mode: Mode::Normal, ..app };
    let row = row_at(app, area, cell.0, cell.1)->0;
    let mouse = MouseEvent { kind: MouseEventKind::LeftDown, column: cell.0, row: cell.1 };
    lemma_rows_in_any_mode(app, area, cell);
    lemma_pressing_a_file(normal, row, queue);
    let (next, tasks) = row_pressed(normal, row, true, queue);
    assert(sidebar_moused(normal, area, mouse, queue) == (next, tasks, true));
    assert(body_moused(normal, layout, mouse, queue) == (next, tasks));
    assert(drag_handled(normal, layout, mouse) == (normal, false));
    assert(title_at(layout.tabs, mouse.column, mouse.row) is None);
    assert(moused(app, layout, mouse, queue) == (next, tasks));
}

proof fn lemma_rows_in_any_mode(app: AppView, area: Rect, cell: (u16, u16))
    ensures
        ({
            let normal = AppView { mode: Mode::Normal, ..app };
            &&& normal.filtered() == app.filtered()
            &&& row_at(normal, area, cell.0, cell.1) == row_at(app, area, cell.0, cell.1)
            &&& sidebar_bar(normal, area) == sidebar_bar(app, area)
        }),
{
    let normal = AppView { mode: Mode::Normal, ..app };
    assert(normal.filtered() == app.filtered());
    assert(entries(normal) =~= entries(app));
    assert(sidebar_rows(normal) == sidebar_rows(app));
}

proof fn lemma_pressing_a_file(app: AppView, row: RowView, queue: QueueView)
    requires
        row is File,
        app.filtered().contains(row->File_index),
    ensures
        ({
            let next = row_pressed(app, row, true, queue).0;
            &&& next.selected_item() == Some(row->File_index)
            &&& next.active().scroll_y == 0
            &&& next.focus == Focus::Navigation
            &&& next.tab == app.tab
            &&& next.mode == app.mode
        }),
{
    let index = row->File_index;
    let indices = app.filtered();
    lemma_first_index(indices, index);
    let k = indices.index_of(index);
    assert(indices[k] == index);
    assert(first_index(indices, index) <= k);
    let held = AppView { focus: Focus::Navigation, ..without_cursor(app) };
    assert(held.filtered() == app.filtered());
    let chosen = held.with_active(
        TabView {
            selected: place_of(held.filtered(), index),
            scroll_y: 0,
            folder: None,
            ..held.active()
        },
    );
    assert(chosen.filtered() == app.filtered());
    let next = after_request(chosen, queue).0;
    assert(next.filtered() == chosen.filtered());
}

/// A click on a title shows its tab: the first eleven cells and the one behind them are
/// of the changes, the nine that follow of the files, and the rest are of neither.
pub proof fn law_clicking_a_title_shows_its_tab(
    app: AppView,
    layout: UiLayout,
    cell: (u16, u16),
    queue: QueueView,
)
    requires
        app.mode != Mode::Help,
        app.scrollbar_drag is None,
        layout.tabs.holds(cell.0, cell.1),
    ensures
        ({
            let next = mouse_at(app, layout, MouseEventKind::LeftDown, cell, queue);
            let at = cell.0 - layout.tabs.x;
            &&& at < 12 ==> next.tab == Tab::Changes
            &&& 12 <= at < 21 ==> next.tab == Tab::Files
            &&& at < 21 ==> next.focus == Focus::Navigation && next.selection is None
            &&& at >= 21 ==> title_at(layout.tabs, cell.0, cell.1) is None
        }),
{
}

/// Pressing the button over one place of a source, drawing the mouse to another and
/// letting go selects what is between the two, and copies it.
pub proof fn law_drawing_over_text_copies_it(
    app: AppView,
    layout: UiLayout,
    from: (u16, u16),
    to: (u16, u16),
    anchor: EditorCursor,
    active: EditorCursor,
    queue: QueueView,
)
    requires
        app.mode == Mode::Normal,
        app.tab == Tab::Files,
        app.scrollbar_drag is None,
        over_content(app, layout, from.0, from.1),
        over_content(app, layout, to.0, to.1),
        cursor_at(app, layout.content->0, from.0, from.1) == Some(anchor),
        cursor_at(app, layout.content->0, to.0, to.1) == Some(active),
    ensures
        ({
            let down = mouse_at(app, layout, MouseEventKind::LeftDown, from, queue);
            let drawn = mouse_at(down, layout, MouseEventKind::LeftDrag, to, queue);
            let up = mouse_at(drawn, layout, MouseEventKind::LeftUp, to, queue);
            &&& down.selection == Some(
                EditorSelection { tab: Tab::Files, anchor, active: anchor },
            )
            &&& drawn.selection == Some(EditorSelection { tab: Tab::Files, anchor, active })
            &&& up.selection == drawn.selection
            &&& up.cursor == Some(active)
            &&& up.focus == Focus::Content
            &&& drawn.clipboard == app.clipboard
            &&& selected_text(drawn) matches Some(text) ==> text.len() > 0 ==> up.clipboard == Some(
                text,
            )
            &&& selected_text(drawn) is None ==> up.clipboard == app.clipboard
        }),
{
    let area = layout.content->0;
    let down = mouse_at(app, layout, MouseEventKind::LeftDown, from, queue);
    let drawn = mouse_at(down, layout, MouseEventKind::LeftDrag, to, queue);
    lemma_button_over_content(app, layout, MouseEventKind::LeftDown, from, queue);
    lemma_same_places(app, down, layout, from);
    lemma_same_places(app, down, layout, to);
    lemma_button_over_content(down, layout, MouseEventKind::LeftDrag, to, queue);
    lemma_same_places(down, drawn, layout, to);
    lemma_button_over_content(drawn, layout, MouseEventKind::LeftUp, to, queue);
    let focused = AppView { focus: Focus::Content, ..drawn };
    let extended = selection_extended(focused, area, to.0, to.1);
    lemma_same_places(drawn, focused, layout, to);
    assert(extended.selection == drawn.selection);
    lemma_same_text(drawn, extended);
}

/// Whether two viewers show the same and differ at most in where the text is selected.
spec fn same_shown(a: AppView, b: AppView) -> bool {
    b == (AppView {
        focus: b.focus,
        cursor: b.cursor,
        cursor_blink_started: b.cursor_blink_started,
        selection: b.selection,
        clipboard: b.clipboard,
        ..a
    })
}

proof fn lemma_same_places(a: AppView, b: AppView, layout: UiLayout, cell: (u16, u16))
    requires
        same_shown(a, b),
        layout.content is Some,
    ensures
        over_content(a, layout, cell.0, cell.1) == over_content(b, layout, cell.0, cell.1),
        cursor_at(a, layout.content->0, cell.0, cell.1) == cursor_at(
            b,
            layout.content->0,
            cell.0,
            cell.1,
        ),
        shown_lines(a) == shown_lines(b),
{
    assert(a.filtered() == b.filtered());
    assert(a.selected_item() == b.selected_item());
    assert(entries(a) =~= entries(b));
    assert(sidebar_rows(a) == sidebar_rows(b));
    assert(selected_scrollbars(a, layout.content->0) == selected_scrollbars(b, layout.content->0));
}

proof fn lemma_same_pieces(
    a: AppView,
    b: AppView,
    lines: SourceLines,
    start: EditorCursor,
    end: EditorCursor,
    line: int,
)
    requires
        shown_lines(a) == shown_lines(b),
    ensures
        selected_until(a, lines, start, end, line) == selected_until(b, lines, start, end, line),
    decreases line - start.line,
{
    assert(selected_piece(a, lines, start, end, line) == selected_piece(
        b,
        lines,
        start,
        end,
        line,
    ));
    if line > start.line {
        lemma_same_pieces(a, b, lines, start, end, line - 1);
    }
}

proof fn lemma_same_text(a: AppView, b: AppView)
    requires
        same_shown(a, b),
        a.selection == b.selection,
    ensures
        selected_text(a) == selected_text(b),
{
    assert(a.filtered() == b.filtered());
    assert(a.selected_item() == b.selected_item());
    assert(shown_lines(a) == shown_lines(b));
    assert(bounds(a) == bounds(b));
    if let Some(lines) = shown_lines(a) {
        if let Some((start, end)) = bounds(a) {
            lemma_same_pieces(a, b, lines, start, end, end.line as int);
        }
    }
}

proof fn lemma_button_over_content(
    app: AppView,
    layout: UiLayout,
    kind: MouseEventKind,
    cell: (u16, u16),
    queue: QueueView,
)
    requires
        app.mode == Mode::Normal,
        app.tab == Tab::Files,
        app.scrollbar_drag is None,
        is_left(kind),
        over_content(app, layout, cell.0, cell.1),
        shown_lines(app) is Some,
    ensures
        mouse_at(app, layout, kind, cell, queue) == content_pressed(
            app,
            layout.content->0,
            (MouseEvent { kind, column: cell.0, row: cell.1 }),
        ),
        same_shown(app, mouse_at(app, layout, kind, cell, queue)),
{
    let area = layout.content->0;
    let mouse = MouseEvent { kind, column: cell.0, row: cell.1 };
    let pressed = content_pressed(app, area, mouse);
    assert(same_shown(app, pressed));
    assert(pressed.filtered() == app.filtered());
    assert(pressed.selected_item() == app.selected_item());
    assert(after_request(pressed, queue).0 == pressed);
    assert(thumb_at(app, area, cell.0, cell.1) is None);
    assert(scrollbar_pressed(app, area, mouse) == (app, false));
}

/// A thumb that is drawn scrolls what it stands for and nothing else: that of the sidebar
/// its rows, those of the content its lines or its columns; and letting go ends it.
pub proof fn law_a_drawn_thumb_scrolls_its_own(
    app: AppView,
    layout: UiLayout,
    drag: ScrollbarDrag,
    bar: ScrollbarGeometry,
    cell: (u16, u16),
    queue: QueueView,
)
    requires
        app.mode != Mode::Help,
        app.scrollbar_drag == Some(drag),
        bar_dragged(app, layout, drag) == Some(bar),
        drag.pane == Focus::Navigation ==> drag.axis == Axis::Vertical,
    ensures
        ({
            let next = mouse_at(app, layout, MouseEventKind::LeftDrag, cell, queue);
            let up = mouse_at(app, layout, MouseEventKind::LeftUp, cell, queue);
            let pointer = match drag.axis {
                Axis::Vertical => cell.1 as int,
                Axis::Horizontal => cell.0 as int,
            };
            let to = dragged(bar, drag.grab_offset as int, pointer);
            &&& drag.pane == Focus::Navigation ==> next == app.with_active(
                TabView { list_scroll_y: to, ..app.active() },
            )
            &&& drag.pane == Focus::Content && drag.axis == Axis::Vertical ==> next
                == app.with_active(TabView { scroll_y: to, ..app.active() })
            &&& drag.pane == Focus::Content && drag.axis == Axis::Horizontal ==> next
                == app.with_active(TabView { scroll_x: to, ..app.active() })
            &&& up == (AppView { scrollbar_drag: None, ..app })
        }),
{
}

/// Pressing on a thumb of the content takes hold of it, at the cell that was pressed, and
/// changes nothing else but the focus.
pub proof fn law_pressing_a_thumb_takes_hold_of_it(
    app: AppView,
    area: Rect,
    cell: (u16, u16),
    axis: Axis,
)
    requires
        selected_scrollbars(app, area) is Some,
        axis == Axis::Vertical ==> ({
            let bar = selected_scrollbars(app, area)->0.vertical;
            bar is Some && bar->0.bar.holds(cell.0, cell.1) && grabbed(bar->0, cell.1 as int) is Some
        }),
        axis == Axis::Horizontal ==> ({
            let bars = selected_scrollbars(app, area)->0;
            &&& bars.vertical matches Some(side) ==> !side.bar.holds(cell.0, cell.1)
            &&& bars.horizontal matches Some(below) && below.bar.holds(cell.0, cell.1) && grabbed(
                below,
                cell.0 as int,
            ) is Some
        }),
    ensures
        ({
            let press = MouseEvent {
                kind: MouseEventKind::LeftDown,
                column: cell.0,
                row: cell.1,
            };
            let (next, done) = scrollbar_pressed(app, area, press);
            let bars = selected_scrollbars(app, area)->0;
            &&& done
            &&& next.scrollbar_drag matches Some(drag) && {
                &&& drag.pane == Focus::Content
                &&& drag.axis == axis
                &&& axis == Axis::Vertical ==> drag.grab_offset == grabbed(
                    bars.vertical->0,
                    cell.1 as int,
                )->0 as usize
                &&& axis == Axis::Horizontal ==> drag.grab_offset == grabbed(
                    bars.horizontal->0,
                    cell.0 as int,
                )->0 as usize
            }
            &&& next == (AppView {
                focus: Focus::Content,
                scrollbar_drag: next.scrollbar_drag,
                ..app
            })
        }),
{
}

} // verus!

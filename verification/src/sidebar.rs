//! The sidebar of the viewer: its rows, its folders and how far it is scrolled.
use vstd::prelude::*;

use crate::app::{App, AppView, ChangesMode, TabView};
use crate::cache::cached;
use crate::diff::{DiffLineKind, DiffLineView};
use crate::diffview::{diff_stats, law_counts_are_of_lines, stats};
use crate::git::{state_label, GitChangeView, GitFileState};
use crate::layout::{bordered_inner, contains, inside_border, minus, spec_min, Axis, Rect};
use crate::model::copy_path;
use crate::navigation::{
    file_row, file_rows, folder_key, folder_of, folder_path, folder_row, group_rows, increasing,
    folder_parts, is_nested, is_open, law_files_stand_under_their_folders,
    law_filter_finds_changes, law_filter_finds_files, law_filter_finds_git_changes,
    law_rows_list_every_open_file, lemma_file_rows_concat, lemma_folder, open_entries, path_holds,
    row_shows, rows_from, stands_under, Listed, NavigationRow, RowView,
};
use crate::path::{components, same_path, ComponentView};
use crate::scrollbar::{geometry, scrollbar_geometry, ScrollbarGeometry};
use crate::seqs::{group_views, option_view, views};
use crate::sets::{toggled, Group, Tab};
use crate::sort::as_ints;
use crate::width::plus;

verus! {

/// The path of an item of the tab.
pub open spec fn item_path(app: AppView, index: int) -> Seq<u8> {
    match app.tab {
        Tab::Changes => match app.changes_mode {
            ChangesMode::Agent => app.changes[index].path,
            ChangesMode::Git => app.git_changes[index].path,
        },
        Tab::Files => app.files[index].relative,
    }
}

/// What the sidebar lists: the items that the filter lets through.
pub open spec fn entries(app: AppView) -> Seq<(int, Seq<u8>)> {
    Seq::new(app.filtered().len(), |k: int| (app.filtered()[k], item_path(app, app.filtered()[k])))
}

/// Of what the sidebar lists, the Git changes whose edits stand at `state`.
pub open spec fn listed_in(
    listed: Seq<(int, Seq<u8>)>,
    changes: Seq<GitChangeView>,
    state: GitFileState,
) -> Seq<(int, Seq<u8>)>
    decreases listed.len(),
{
    if listed.len() == 0 {
        Seq::empty()
    } else {
        let rest = listed_in(listed.drop_last(), changes, state);
        if changes[listed.last().0].state == state {
            rest.push(listed.last())
        } else {
            rest
        }
    }
}

/// The rows for the Git changes whose edits stand at `state`, under a word for it;
/// none where there is no such change.
pub open spec fn status_rows(app: AppView, state: GitFileState) -> Seq<RowView> {
    let own = listed_in(entries(app), app.git_changes, state);
    if own.len() == 0 {
        Seq::empty()
    } else {
        seq![RowView::Status { label: state_label(state) }] + rows_from(
            own,
            None,
            app.tab,
            app.collapsed_groups,
        )
    }
}

/// Whether the sidebar lists what Git knows of, which it does by status.
pub open spec fn lists_by_status(app: AppView) -> bool {
    app.tab == Tab::Changes && app.changes_mode == ChangesMode::Git
}

/// The rows of the sidebar.
pub open spec fn sidebar_rows(app: AppView) -> Seq<RowView> {
    if lists_by_status(app) {
        status_rows(app, GitFileState::Staged) + status_rows(app, GitFileState::Unstaged)
            + status_rows(app, GitFileState::StagedAndUnstaged) + status_rows(
            app,
            GitFileState::Untracked,
        ) + status_rows(app, GitFileState::Committed)
    } else {
        rows_from(entries(app), None, app.tab, app.collapsed_groups)
    }
}

/// The row that the sidebar begins with on the screen.
pub open spec fn sidebar_offset(app: AppView, area: Rect) -> int {
    spec_min(
        app.active().list_scroll_y,
        minus(sidebar_rows(app).len() as int, inside_border(area).height as int),
    )
}

/// The row under a cell.
pub open spec fn row_at(app: AppView, area: Rect, column: u16, row: u16) -> Option<RowView> {
    let inner = inside_border(area);
    if !area.holds(column, row) || inner.empty() || row < inner.y || row >= inner.spec_bottom() {
        None
    } else {
        let index = plus(sidebar_offset(app, area), row - inner.y);
        if index < sidebar_rows(app).len() {
            Some(sidebar_rows(app)[index])
        } else {
            None
        }
    }
}

/// The viewer with a folder opened or closed.
pub open spec fn folder_toggled(app: AppView, path: Seq<u8>) -> AppView {
    let next = AppView {
        collapsed_groups: toggled(app.collapsed_groups, (app.tab, components(path))),
        ..app
    };
    next.with_active(
        TabView {
            list_scroll_y: spec_min(
                next.active().list_scroll_y,
                minus(sidebar_rows(next).len() as int, 1),
            ),
            ..next.active()
        },
    )
}

/// The first row of the sidebar that shows the folder.
pub open spec fn row_of_folder(rows: Seq<RowView>, folder: Seq<u8>) -> int
    decreases rows.len(),
{
    if rows.len() == 0 || (rows[0] matches RowView::Group { path, .. } && components(path)
        == components(folder)) {
        0
    } else {
        1 + row_of_folder(rows.skip(1), folder)
    }
}

/// Whether a row shows the folder.
pub open spec fn shows_folder(rows: Seq<RowView>, folder: Seq<u8>) -> bool {
    row_of_folder(rows, folder) < rows.len()
}

/// The folder of the selected item, where there is one.
pub open spec fn selected_folder(app: AppView) -> Option<Seq<u8>> {
    match app.selected_item() {
        Some(selected) => folder_of(item_path(app, selected)),
        None => None,
    }
}

/// The folder that the cursor of the sidebar stands on: the one that it was put on,
/// as long as there is a row for it, else that in which the selected item is hidden.
/// Elsewhere the cursor stands on the selected item.
pub open spec fn cursor_folder(app: AppView) -> Option<Seq<u8>> {
    match app.active().folder {
        Some(folder) if shows_folder(sidebar_rows(app), folder) => Some(folder),
        _ => match selected_folder(app) {
            Some(folder) if app.collapsed_groups.contains((app.tab, components(folder))) => Some(
                folder,
            ),
            _ => None,
        },
    }
}

/// Where the scrollbar of the sidebar stands: over the right side of its border.
pub open spec fn sidebar_edge(area: Rect) -> Rect {
    Rect {
        x: area.x,
        y: inside_border(area).y,
        width: area.width,
        height: inside_border(area).height,
    }
}

/// The scrollbar of the sidebar, where there are more rows than it can show.
pub open spec fn sidebar_bar(app: AppView, area: Rect) -> Option<ScrollbarGeometry> {
    geometry(
        Axis::Vertical,
        sidebar_edge(area),
        sidebar_rows(app).len() as int,
        inside_border(area).height as int,
        inside_border(area).height as int,
        sidebar_offset(app, area),
    )
}

/// How many lines a change adds and deletes, where its diff has been read.
pub open spec fn item_stats(app: AppView, index: int) -> Option<(nat, nat)> {
    if app.tab != Tab::Changes {
        None
    } else {
        let lines = match app.changes_mode {
            ChangesMode::Agent => cached(app.diff_cache, index as usize),
            ChangesMode::Git => cached(app.git_diff_cache, index as usize),
        };
        match lines {
            Some(all) => Some(stats(views(all@))),
            None => None,
        }
    }
}

/// Where the scrollbar of the sidebar stands: over the right side of its border.
pub fn navigation_edge(area: Rect) -> (edge: Rect)
    ensures
        edge == sidebar_edge(area),
{
    let inner = bordered_inner(area);
    Rect { x: area.x, y: inner.y, width: area.width, height: inner.height }
}

/// The first row that shows the folder, if one does.
pub fn folder_row_in(rows: &Vec<NavigationRow>, folder: &Vec<u8>) -> (row: Option<usize>)
    ensures
        (match row {
            Some(k) => Some(k as int),
            None => None,
        }) == ({
            let k = row_of_folder(views(rows@), folder@);
            if k < rows@.len() {
                Some(k)
            } else {
                None
            }
        }),
{
    let ghost all = views(rows@);
    let mut k: usize = 0;
    proof {
        assert(all.len() == rows@.len());
        assert(all.skip(0) =~= all);
    }
    while k < rows.len()
        invariant
            k <= rows@.len(),
            all == views(rows@),
            all.len() == rows@.len(),
            row_of_folder(all, folder@) == k + row_of_folder(all.skip(k as int), folder@),
        decreases rows@.len() - k,
    {
        let ghost rest = all.skip(k as int);
        proof {
            assert(rest[0] == rows@[k as int]@);
            assert(rest.skip(1) =~= all.skip(k + 1));
        }
        if let NavigationRow::Group { path, .. } = &rows[k] {
            if same_path(path, folder) {
                return Some(k);
            }
        }
        k += 1;
    }
    proof {
        assert(all.skip(k as int).len() == 0);
    }
    None
}

impl App {
    fn listed_items(&self) -> (items: Vec<Listed>)
        ensures
            views(items@) == entries(self@),
    {
        broadcast use group_views;

        let indices = self.filtered_indices();
        let ghost wanted = entries(self@);
        let mut items: Vec<Listed> = Vec::new();
        let mut k: usize = 0;
        proof {
            crate::app::lemma_filtered(self@);
            assert(wanted.take(0) =~= Seq::empty());
        }
        while k < indices.len()
            invariant
                k <= indices@.len(),
                as_ints(indices@) == self@.filtered(),
                wanted == entries(self@),
                forall|k: int|
                    0 <= k < self@.filtered().len() ==> 0 <= #[trigger] self@.filtered()[k]
                        < self@.item_count(),
                views(items@) == wanted.take(k as int),
            decreases indices@.len() - k,
        {
            let index = indices[k];
            proof {
                assert(as_ints(indices@)[k as int] == index as int);
                assert(self@.filtered()[k as int] == index as int);
            }
            let path = match self.tab {
                Tab::Changes => match self.changes_mode {
                    ChangesMode::Agent => copy_path(&self.changes[index].path),
                    ChangesMode::Git => copy_path(&self.git_changes[index].path),
                },
                Tab::Files => copy_path(&self.files[index].relative),
            };
            let item = Listed { index, path };
            proof {
                assert(item@ == wanted[k as int]);
                assert(wanted.take(k + 1) =~= wanted.take(k as int).push(item@));
            }
            items.push(item);
            k += 1;
        }
        proof {
            assert(as_ints(indices@).len() == indices@.len());
            assert(wanted.take(k as int) =~= wanted);
        }
        items
    }

    fn push_status_rows(
        &self,
        rows: &mut Vec<NavigationRow>,
        items: &Vec<Listed>,
        state: GitFileState,
    )
        requires
            lists_by_status(self@),
            views(items@) == entries(self@),
        ensures
            views(final(rows)@) == views(old(rows)@) + status_rows(self@, state),
    {
        broadcast use group_views;

        let ghost all = entries(self@);
        let ghost changes = self@.git_changes;
        let ghost before = views(rows@);
        let mut own: Vec<Listed> = Vec::new();
        let mut i: usize = 0;
        proof {
            crate::app::lemma_filtered(self@);
            assert(all.take(0) =~= Seq::empty());
            assert(views(own@) =~= Seq::empty());
        }
        while i < items.len()
            invariant
                i <= items@.len(),
                all == views(items@),
                all == entries(self@),
                changes == self@.git_changes,
                lists_by_status(self@),
                forall|k: int|
                    0 <= k < self@.filtered().len() ==> 0 <= #[trigger] self@.filtered()[k]
                        < self@.item_count(),
                views(own@) == listed_in(all.take(i as int), changes, state),
            decreases items@.len() - i,
        {
            let index = items[i].index;
            proof {
                assert(all[i as int] == items@[i as int]@);
                assert(all.len() == items@.len());
                assert(all.len() == self@.filtered().len());
                assert(self@.filtered()[i as int] == index as int);
                assert(all.take(i + 1).drop_last() =~= all.take(i as int));
                assert(all.take(i + 1).last() == all[i as int]);
                assert(changes[index as int] == self.git_changes@[index as int]@);
            }
            if self.git_changes[index].state == state {
                own.push(Listed { index, path: copy_path(&items[i].path) });
            }
            i += 1;
        }
        proof {
            assert(all.take(i as int) =~= all);
            assert(views(own@).len() == own@.len());
        }
        if own.len() > 0 {
            rows.push(NavigationRow::Status { label: state.label().to_owned() });
            let mut grouped = group_rows(&own, self.tab, &self.collapsed_groups);
            let ghost added = views(grouped@);
            rows.append(&mut grouped);
            proof {
                assert(views(rows@) =~= before + status_rows(self@, state));
            }
        } else {
            proof {
                assert(before + Seq::<RowView>::empty() =~= before);
            }
        }
    }

    /// The rows of the sidebar.
    pub fn navigation_rows(&self) -> (rows: Vec<NavigationRow>)
        ensures
            views(rows@) == sidebar_rows(self@),
    {
        broadcast use group_views;

        let items = self.listed_items();
        if self.tab == Tab::Changes && self.changes_mode == ChangesMode::Git {
            let mut rows: Vec<NavigationRow> = Vec::new();
            proof {
                assert(views(rows@) =~= Seq::empty());
            }
            self.push_status_rows(&mut rows, &items, GitFileState::Staged);
            proof {
                assert(views(rows@) =~= status_rows(self@, GitFileState::Staged));
            }
            self.push_status_rows(&mut rows, &items, GitFileState::Unstaged);
            self.push_status_rows(&mut rows, &items, GitFileState::StagedAndUnstaged);
            self.push_status_rows(&mut rows, &items, GitFileState::Untracked);
            self.push_status_rows(&mut rows, &items, GitFileState::Committed);
            rows
        } else {
            group_rows(&items, self.tab, &self.collapsed_groups)
        }
    }

    /// The row that the sidebar begins with on the screen.
    pub fn navigation_scroll_offset(&self, area: Rect) -> (offset: usize)
        ensures
            offset == sidebar_offset(self@, area),
    {
        let inner = bordered_inner(area);
        let rows = self.navigation_rows();
        proof {
            assert(views(rows@).len() == rows@.len());
        }
        let most = rows.len().saturating_sub(inner.height as usize);
        let at = self.active_state().list_scroll_y;
        if at < most {
            at
        } else {
            most
        }
    }

    /// The folder of the selected item, where there is one.
    pub fn folder_of_selected(&self) -> (result: Option<Vec<u8>>)
        ensures
            option_view(result) == selected_folder(self@),
    {
        let selected = match self.actual_selected() {
            None => {
                return None;
            },
            Some(selected) => selected,
        };
        let path = match self.tab {
            Tab::Changes => match self.changes_mode {
                ChangesMode::Agent => &self.changes[selected].path,
                ChangesMode::Git => &self.git_changes[selected].path,
            },
            Tab::Files => &self.files[selected].relative,
        };
        folder_path(path)
    }

    /// The folder that the cursor of the sidebar stands on, where it stands on one.
    pub fn navigation_cursor_folder(&self) -> (result: Option<Vec<u8>>)
        ensures
            option_view(result) == cursor_folder(self@),
    {
        if let Some(folder) = &self.active_state().folder {
            let rows = self.navigation_rows();
            if folder_row_in(&rows, folder).is_some() {
                return Some(copy_path(folder));
            }
        }
        match self.folder_of_selected() {
            Some(folder) => {
                if self.group_collapsed(&folder) {
                    Some(folder)
                } else {
                    None
                }
            },
            None => None,
        }
    }

    /// The scrollbar of the sidebar, where there are more rows than it can show.
    pub fn navigation_scrollbar(&self, area: Rect) -> (bar: Option<ScrollbarGeometry>)
        ensures
            bar == sidebar_bar(self@, area),
    {
        let inner = bordered_inner(area);
        let rows = self.navigation_rows();
        proof {
            assert(views(rows@).len() == rows@.len());
        }
        scrollbar_geometry(
            Axis::Vertical,
            navigation_edge(area),
            rows.len(),
            inner.height as usize,
            inner.height as usize,
            self.navigation_scroll_offset(area),
        )
    }

    /// The row under a cell.
    pub fn navigation_row_at(&self, area: Rect, column: u16, row: u16) -> (result: Option<
        NavigationRow,
    >)
        ensures
            option_view(result) == row_at(self@, area, column, row),
    {
        if !contains(area, column, row) {
            return None;
        }
        let inner = bordered_inner(area);
        if inner.is_empty() || row < inner.y || row >= inner.bottom() {
            return None;
        }
        let rows = self.navigation_rows();
        let offset = self.navigation_scroll_offset(area);
        let index = offset.saturating_add((row - inner.y) as usize);
        proof {
            assert(views(rows@).len() == rows@.len());
        }
        if index < rows.len() {
            Some(rows[index].clone())
        } else {
            None
        }
    }

    /// Opens or closes a folder of the tab.
    pub fn toggle_group(&mut self, path: &[u8])
        ensures
            final(self)@ == folder_toggled(old(self)@, path@),
    {
        self.collapsed_groups.toggle(self.tab, path);
        let rows = self.navigation_rows();
        proof {
            assert(views(rows@).len() == rows@.len());
        }
        let most = rows.len().saturating_sub(1);
        let state = self.active_state_mut();
        if state.list_scroll_y > most {
            state.list_scroll_y = most;
        }
    }

    /// Whether a folder of the tab is closed.
    pub fn group_collapsed(&self, path: &[u8]) -> (closed: bool)
        ensures
            closed == self@.collapsed_groups.contains((self@.tab, components(path@))),
    {
        self.collapsed_groups.contains(self.tab, path)
    }

    /// How many lines a change adds and deletes, where its diff has been read.
    pub fn navigation_stats(&self, index: usize) -> (result: Option<(usize, usize)>)
        ensures
            (match result {
                Some((additions, deletions)) => Some((additions as nat, deletions as nat)),
                None => None,
            }) == item_stats(self@, index as int),
    {
        if self.tab != Tab::Changes {
            return None;
        }
        let lines = match self.changes_mode {
            ChangesMode::Agent => self.diff_cache.get(&index),
            ChangesMode::Git => self.git_diff_cache.get(&index),
        };
        match lines {
            Some(all) => Some(diff_stats(all)),
            None => None,
        }
    }
}

/// Whether every file that the rows show is among the items.
pub open spec fn shows_only(rows: Seq<RowView>, items: Set<int>) -> bool {
    forall|k: int|
        0 <= k < rows.len() ==> (#[trigger] rows[k] matches RowView::File { index, .. }
            ==> items.contains(index))
}

pub open spec fn all_among(listed: Seq<(int, Seq<u8>)>, items: Set<int>) -> bool {
    forall|j: int| 0 <= j < listed.len() ==> items.contains((#[trigger] listed[j]).0)
}

proof fn lemma_shows_both(a: Seq<RowView>, b: Seq<RowView>, items: Set<int>)
    requires
        shows_only(a, items),
        shows_only(b, items),
    ensures
        shows_only(a + b, items),
{
    assert forall|k: int| 0 <= k < (a + b).len() implies (#[trigger] (a
        + b)[k] matches RowView::File { index, .. } ==> items.contains(index)) by {
        if k < a.len() {
            assert((a + b)[k] == a[k]);
        } else {
            assert((a + b)[k] == b[k - a.len()]);
        }
    }
}

/// A file that a row shows is one of those listed.
proof fn lemma_rows_from_among(
    listed: Seq<(int, Seq<u8>)>,
    current: Option<Seq<ComponentView>>,
    tab: Tab,
    closed: Set<Group>,
    items: Set<int>,
)
    requires
        all_among(listed, items),
    ensures
        shows_only(rows_from(listed, current, tab, closed), items),
    decreases listed.len(),
{
    if listed.len() > 0 {
        let (index, path) = listed[0];
        let folder = folder_of(path);
        let head = folder_row(folder, current);
        let body = file_row(index, path, tab, closed);
        let rest = listed.skip(1);
        assert(all_among(rest, items)) by {
            assert forall|j: int| 0 <= j < rest.len() implies items.contains(
                (#[trigger] rest[j]).0,
            ) by {
                assert(rest[j] == listed[j + 1]);
            }
        }
        lemma_rows_from_among(rest, folder_key(folder), tab, closed, items);
        assert(items.contains(listed[0].0));
        lemma_shows_both(head, body, items);
        lemma_shows_both(head + body, rows_from(rest, folder_key(folder), tab, closed), items);
    }
}

proof fn lemma_listed_in_among(
    listed: Seq<(int, Seq<u8>)>,
    changes: Seq<GitChangeView>,
    state: GitFileState,
    items: Set<int>,
)
    requires
        all_among(listed, items),
    ensures
        all_among(listed_in(listed, changes, state), items),
        forall|j: int|
            0 <= j < listed_in(listed, changes, state).len() ==> changes[(
            #[trigger] listed_in(listed, changes, state)[j]).0].state == state,
    decreases listed.len(),
{
    if listed.len() > 0 {
        let front = listed.drop_last();
        assert(all_among(front, items)) by {
            assert forall|j: int| 0 <= j < front.len() implies items.contains(
                (#[trigger] front[j]).0,
            ) by {
                assert(front[j] == listed[j]);
            }
        }
        lemma_listed_in_among(front, changes, state, items);
        assert(items.contains(listed[listed.len() - 1].0));
    }
}

proof fn lemma_status_rows_among(app: AppView, state: GitFileState, items: Set<int>)
    requires
        all_among(entries(app), items),
    ensures
        shows_only(status_rows(app, state), items),
{
    let own = listed_in(entries(app), app.git_changes, state);
    lemma_listed_in_among(entries(app), app.git_changes, state, items);
    lemma_rows_from_among(own, None, app.tab, app.collapsed_groups, items);
    lemma_shows_both(
        seq![RowView::Status { label: state_label(state) }],
        rows_from(own, None, app.tab, app.collapsed_groups),
        items,
    );
}

/// The rows of the sidebar show only items that there are.
pub proof fn lemma_rows_among(app: AppView, items: Set<int>)
    requires
        forall|index: int| 0 <= index < app.item_count() ==> items.contains(index),
    ensures
        shows_only(sidebar_rows(app), items),
{
    crate::app::lemma_filtered(app);
    let listed = entries(app);
    assert(all_among(listed, items)) by {
        assert forall|j: int| 0 <= j < listed.len() implies items.contains(
            (#[trigger] listed[j]).0,
        ) by {
            assert(listed[j].0 == app.filtered()[j]);
        }
    }
    if lists_by_status(app) {
        let a = status_rows(app, GitFileState::Staged);
        let b = status_rows(app, GitFileState::Unstaged);
        let c = status_rows(app, GitFileState::StagedAndUnstaged);
        let d = status_rows(app, GitFileState::Untracked);
        let e = status_rows(app, GitFileState::Committed);
        lemma_status_rows_among(app, GitFileState::Staged, items);
        lemma_status_rows_among(app, GitFileState::Unstaged, items);
        lemma_status_rows_among(app, GitFileState::StagedAndUnstaged, items);
        lemma_status_rows_among(app, GitFileState::Untracked, items);
        lemma_status_rows_among(app, GitFileState::Committed, items);
        lemma_shows_both(a, b, items);
        lemma_shows_both(a + b, c, items);
        lemma_shows_both(a + b + c, d, items);
        lemma_shows_both(a + b + c + d, e, items);
    } else {
        lemma_rows_from_among(listed, None, app.tab, app.collapsed_groups, items);
    }
}

proof fn lemma_folder_in_both(a: Seq<RowView>, b: Seq<RowView>, folder: Seq<u8>)
    ensures
        shows_folder(a + b, folder) == (shows_folder(a, folder) || shows_folder(b, folder)),
    decreases a.len(),
{
    if a.len() == 0 {
        assert(a + b =~= b);
    } else {
        assert((a + b)[0] == a[0]);
        assert((a + b).skip(1) =~= a.skip(1) + b);
        lemma_folder_in_both(a.skip(1), b, folder);
    }
}

/// A row for a folder is one that shows it.
pub proof fn lemma_row_shows_folder(rows: Seq<RowView>, k: int, folder: Seq<u8>)
    requires
        0 <= k < rows.len(),
        rows[k] matches RowView::Group { path, .. } && components(path) == components(folder),
    ensures
        shows_folder(rows, folder),
    decreases rows.len(),
{
    if k > 0 {
        assert(rows.skip(1)[k - 1] == rows[k]);
        lemma_row_shows_folder(rows.skip(1), k - 1, folder);
    }
}

proof fn lemma_files_show_no_folder(
    index: int,
    path: Seq<u8>,
    tab: Tab,
    closed: Set<Group>,
    folder: Seq<u8>,
)
    ensures
        !shows_folder(file_row(index, path, tab, closed), folder),
{
    let rows = file_row(index, path, tab, closed);
    if rows.len() > 0 {
        assert(rows.skip(1).len() == 0);
        assert(row_of_folder(rows.skip(1), folder) == 0);
    }
}

/// Which folders are closed does not change which folders are shown.
proof fn lemma_closing_keeps_folder_rows(
    listed: Seq<(int, Seq<u8>)>,
    current: Option<Seq<ComponentView>>,
    tab: Tab,
    a: Set<Group>,
    b: Set<Group>,
    folder: Seq<u8>,
)
    ensures
        shows_folder(rows_from(listed, current, tab, a), folder) == shows_folder(
            rows_from(listed, current, tab, b),
            folder,
        ),
    decreases listed.len(),
{
    if listed.len() > 0 {
        let (index, path) = listed[0];
        let own = folder_of(path);
        let head = folder_row(own, current);
        let rest = listed.skip(1);
        lemma_closing_keeps_folder_rows(rest, folder_key(own), tab, a, b, folder);
        lemma_files_show_no_folder(index, path, tab, a, folder);
        lemma_files_show_no_folder(index, path, tab, b, folder);
        lemma_folder_in_both(head, file_row(index, path, tab, a), folder);
        lemma_folder_in_both(head, file_row(index, path, tab, b), folder);
        lemma_folder_in_both(
            head + file_row(index, path, tab, a),
            rows_from(rest, folder_key(own), tab, a),
            folder,
        );
        lemma_folder_in_both(
            head + file_row(index, path, tab, b),
            rows_from(rest, folder_key(own), tab, b),
            folder,
        );
    }
}

/// The folder of a listed item is shown, unless it went before.
proof fn lemma_listed_folder_is_shown(
    listed: Seq<(int, Seq<u8>)>,
    current: Option<Seq<ComponentView>>,
    tab: Tab,
    closed: Set<Group>,
    j: int,
    folder: Seq<u8>,
)
    requires
        0 <= j < listed.len(),
        folder_of(listed[j].1) == Some(folder),
    ensures
        shows_folder(rows_from(listed, current, tab, closed), folder) || current == Some(
            components(folder),
        ),
    decreases listed.len(),
{
    let (index, path) = listed[0];
    let own = folder_of(path);
    let head = folder_row(own, current);
    let body = file_row(index, path, tab, closed);
    let rest = listed.skip(1);
    lemma_folder_in_both(head, body, folder);
    lemma_folder_in_both(head + body, rows_from(rest, folder_key(own), tab, closed), folder);
    if own matches Some(first) && components(first) == components(folder) && current != Some(
        components(folder),
    ) {
        lemma_row_shows_folder(head, 0, folder);
    } else if j > 0 {
        assert(rest[j - 1] == listed[j]);
        lemma_listed_folder_is_shown(rest, folder_key(own), tab, closed, j - 1, folder);
    }
}

proof fn lemma_listed_in_keeps(
    listed: Seq<(int, Seq<u8>)>,
    changes: Seq<GitChangeView>,
    j: int,
) -> (k: int)
    requires
        0 <= j < listed.len(),
    ensures
        ({
            let own = listed_in(listed, changes, changes[listed[j].0].state);
            0 <= k < own.len() && own[k] == listed[j]
        }),
    decreases listed.len(),
{
    let state = changes[listed[j].0].state;
    let own = listed_in(listed, changes, state);
    if j == listed.len() - 1 {
        own.len() - 1
    } else {
        assert(listed.drop_last()[j] == listed[j]);
        let k = lemma_listed_in_keeps(listed.drop_last(), changes, j);
        assert(own[k] == listed_in(listed.drop_last(), changes, state)[k]);
        k
    }
}

proof fn lemma_status_shows_folder(app: AppView, folder: Seq<u8>)
    requires
        lists_by_status(app),
    ensures
        shows_folder(sidebar_rows(app), folder) == (shows_folder(
            status_rows(app, GitFileState::Staged),
            folder,
        ) || shows_folder(status_rows(app, GitFileState::Unstaged), folder) || shows_folder(
            status_rows(app, GitFileState::StagedAndUnstaged),
            folder,
        ) || shows_folder(status_rows(app, GitFileState::Untracked), folder) || shows_folder(
            status_rows(app, GitFileState::Committed),
            folder,
        )),
{
    let a = status_rows(app, GitFileState::Staged);
    let b = status_rows(app, GitFileState::Unstaged);
    let c = status_rows(app, GitFileState::StagedAndUnstaged);
    let d = status_rows(app, GitFileState::Untracked);
    let e = status_rows(app, GitFileState::Committed);
    lemma_folder_in_both(a, b, folder);
    lemma_folder_in_both(a + b, c, folder);
    lemma_folder_in_both(a + b + c, d, folder);
    lemma_folder_in_both(a + b + c + d, e, folder);
}

/// The rows under a status show the folders that its files are listed under.
proof fn lemma_status_folders(app: AppView, state: GitFileState, folder: Seq<u8>)
    ensures
        ({
            let own = listed_in(entries(app), app.git_changes, state);
            shows_folder(status_rows(app, state), folder) == (own.len() > 0 && shows_folder(
                rows_from(own, None, app.tab, app.collapsed_groups),
                folder,
            ))
        }),
{
    let own = listed_in(entries(app), app.git_changes, state);
    let word = seq![RowView::Status { label: state_label(state) }];
    let rows = rows_from(own, None, app.tab, app.collapsed_groups);
    lemma_folder_in_both(word, rows, folder);
    assert(word.skip(1).len() == 0);
    assert(row_of_folder(word.skip(1), folder) == 0);
    assert(!shows_folder(word, folder));
}

/// The sidebar has a row for the folder of the selected item.
pub proof fn lemma_selected_folder_is_shown(app: AppView, folder: Seq<u8>)
    requires
        selected_folder(app) == Some(folder),
    ensures
        shows_folder(sidebar_rows(app), folder),
{
    let listed = entries(app);
    let at = app.active().selected;
    assert(listed[at] == (app.filtered()[at], item_path(app, app.filtered()[at])));
    if lists_by_status(app) {
        let state = app.git_changes[listed[at].0].state;
        let own = listed_in(listed, app.git_changes, state);
        let k = lemma_listed_in_keeps(listed, app.git_changes, at);
        lemma_listed_folder_is_shown(own, None, app.tab, app.collapsed_groups, k, folder);
        lemma_status_folders(app, state, folder);
        lemma_status_shows_folder(app, folder);
    } else {
        lemma_listed_folder_is_shown(listed, None, app.tab, app.collapsed_groups, at, folder);
    }
}

/// Opening and closing folders changes nothing of which folders the sidebar shows.
pub proof fn lemma_toggling_keeps_folder_rows(app: AppView, next: AppView, folder: Seq<u8>)
    requires
        entries(next) == entries(app),
        next.tab == app.tab,
        next.changes_mode == app.changes_mode,
        next.git_changes == app.git_changes,
    ensures
        shows_folder(sidebar_rows(next), folder) == shows_folder(sidebar_rows(app), folder),
{
    let a = app.collapsed_groups;
    let b = next.collapsed_groups;
    if lists_by_status(app) {
        lemma_status_shows_folder(app, folder);
        lemma_status_shows_folder(next, folder);
        lemma_status_keeps_folders(app, next, GitFileState::Staged, folder);
        lemma_status_keeps_folders(app, next, GitFileState::Unstaged, folder);
        lemma_status_keeps_folders(app, next, GitFileState::StagedAndUnstaged, folder);
        lemma_status_keeps_folders(app, next, GitFileState::Untracked, folder);
        lemma_status_keeps_folders(app, next, GitFileState::Committed, folder);
    } else {
        lemma_closing_keeps_folder_rows(entries(app), None, app.tab, a, b, folder);
    }
}

proof fn lemma_status_keeps_folders(
    app: AppView,
    next: AppView,
    state: GitFileState,
    folder: Seq<u8>,
)
    requires
        entries(next) == entries(app),
        next.tab == app.tab,
        next.git_changes == app.git_changes,
    ensures
        shows_folder(status_rows(next, state), folder) == shows_folder(
            status_rows(app, state),
            folder,
        ),
{
    let own = listed_in(entries(app), app.git_changes, state);
    lemma_status_folders(app, state, folder);
    lemma_status_folders(next, state, folder);
    lemma_closing_keeps_folder_rows(
        own,
        None,
        app.tab,
        app.collapsed_groups,
        next.collapsed_groups,
        folder,
    );
}

/// Wherever the cursor of the sidebar stands on a folder, there is a row for it.
pub proof fn law_the_cursor_has_a_row(app: AppView)
    ensures
        cursor_folder(app) matches Some(folder) ==> shows_folder(sidebar_rows(app), folder),
        cursor_folder(app) is None ==> app.active().folder is None || !shows_folder(
            sidebar_rows(app),
            app.active().folder->0,
        ),
{
    if let Some(folder) = cursor_folder(app) {
        if !shows_folder(sidebar_rows(app), folder) {
            lemma_selected_folder_is_shown(app, folder);
        }
    }
}

/// Whether the filter lets an item of the tab through: it occurs in the item's path,
/// or in the path that a Git change had, the case of letters aside.
pub open spec fn filter_finds(app: AppView, index: int) -> bool {
    let filter = app.active().filter;
    match (app.tab, app.changes_mode) {
        (Tab::Files, _) => 0 <= index < app.files.len() && path_holds(
            app.files[index].relative,
            filter,
        ),
        (Tab::Changes, ChangesMode::Agent) => 0 <= index < app.changes.len() && path_holds(
            app.changes[index].path,
            filter,
        ),
        (Tab::Changes, ChangesMode::Git) => 0 <= index < app.git_changes.len() && (path_holds(
            app.git_changes[index].path,
            filter,
        ) || (app.git_changes[index].old_path is Some && path_holds(
            app.git_changes[index].old_path->0,
            filter,
        ))),
    }
}

/// The items of a tab that are gone through are those that the filter finds, each once,
/// in their order.
pub proof fn law_the_filter_narrows_the_list(app: AppView)
    ensures
        forall|x: int| #[trigger] app.filtered().contains(x) <==> filter_finds(app, x),
        increasing(app.filtered()),
{
    law_filter_finds_files(app.files, app.files_state.filter);
    law_filter_finds_changes(app.changes, app.changes_state.filter);
    law_filter_finds_git_changes(app.git_changes, app.changes_state.filter);
}

/// How often the sidebar shows an item.
pub open spec fn times_shown(rows: Seq<RowView>, index: int) -> nat {
    file_rows(rows).to_multiset().count(index)
}

spec fn once_each(listed: Seq<(int, Seq<u8>)>) -> bool {
    forall|i: int, j: int|
        #![trigger listed[i], listed[j]]
        0 <= i < j < listed.len() ==> listed[i].0 != listed[j].0
}

proof fn lemma_count_first(x: int, rest: Seq<int>, index: int)
    ensures
        (seq![x] + rest).to_multiset().count(index) == rest.to_multiset().count(index) + if x
            == index {
            1nat
        } else {
            0
        },
{
    broadcast use vstd::seq_lib::group_to_multiset_ensures;

    vstd::seq_lib::lemma_multiset_commutative(seq![x], rest);
    assert(seq![x] =~= Seq::empty().push(x));
}

proof fn lemma_open_count(
    listed: Seq<(int, Seq<u8>)>,
    tab: Tab,
    closed: Set<Group>,
    index: int,
)
    requires
        once_each(listed),
    ensures
        open_entries(listed, tab, closed).to_multiset().count(index) <= 1,
        open_entries(listed, tab, closed).to_multiset().count(index) == 1 <==> exists|j: int|
            0 <= j < listed.len() && (#[trigger] listed[j]).0 == index && is_open(
                listed[j].1,
                tab,
                closed,
            ),
    decreases listed.len(),
{
    broadcast use vstd::seq_lib::group_to_multiset_ensures;

    if listed.len() == 0 {
        assert(open_entries(listed, tab, closed) =~= Seq::empty());
    } else {
        let rest = listed.skip(1);
        let (first, path) = listed[0];
        assert forall|i: int, j: int|
            #![trigger rest[i], rest[j]]
            0 <= i < j < rest.len() implies rest[i].0 != rest[j].0 by {
            assert(rest[i] == listed[i + 1] && rest[j] == listed[j + 1]);
        }
        lemma_open_count(rest, tab, closed, index);
        lemma_folder(path);
        let later = open_entries(rest, tab, closed);
        lemma_count_first(first, later, index);
        if first == index {
            assert forall|j: int| 0 <= j < rest.len() implies (#[trigger] rest[j]).0 != index by {
                assert(rest[j] == listed[j + 1]);
                assert(listed[0].0 != listed[j + 1].0);
            }
        }
        if exists|j: int|
            0 <= j < listed.len() && (#[trigger] listed[j]).0 == index && is_open(
                listed[j].1,
                tab,
                closed,
            ) {
            let j = choose|j: int|
                0 <= j < listed.len() && (#[trigger] listed[j]).0 == index && is_open(
                    listed[j].1,
                    tab,
                    closed,
                );
            if j > 0 {
                assert(rest[j - 1] == listed[j]);
            }
        }
        if exists|j: int|
            0 <= j < rest.len() && (#[trigger] rest[j]).0 == index && is_open(
                rest[j].1,
                tab,
                closed,
            ) {
            let j = choose|j: int|
                0 <= j < rest.len() && (#[trigger] rest[j]).0 == index && is_open(
                    rest[j].1,
                    tab,
                    closed,
                );
            assert(listed[j + 1] == rest[j]);
        }
    }
}

proof fn lemma_entries_once(app: AppView)
    ensures
        once_each(entries(app)),
{
    law_the_filter_narrows_the_list(app);
}

proof fn lemma_listed_in_once(
    listed: Seq<(int, Seq<u8>)>,
    changes: Seq<GitChangeView>,
    state: GitFileState,
)
    requires
        once_each(listed),
    ensures
        once_each(listed_in(listed, changes, state)),
        forall|k: int|
            0 <= k < listed_in(listed, changes, state).len() ==> listed.contains(
                #[trigger] listed_in(listed, changes, state)[k],
            ) && changes[listed_in(listed, changes, state)[k].0].state == state,
    decreases listed.len(),
{
    if listed.len() > 0 {
        let front = listed.drop_last();
        assert forall|i: int, j: int|
            #![trigger front[i], front[j]]
            0 <= i < j < front.len() implies front[i].0 != front[j].0 by {
            assert(front[i] == listed[i] && front[j] == listed[j]);
        }
        lemma_listed_in_once(front, changes, state);
        let before = listed_in(front, changes, state);
        let own = listed_in(listed, changes, state);
        let last = listed.len() - 1;
        assert forall|k: int| 0 <= k < own.len() implies listed.contains(#[trigger] own[k])
            && changes[own[k].0].state == state by {
            if k < before.len() {
                assert(own[k] == before[k]);
                let m = front.index_of(before[k]);
                assert(front.contains(before[k]));
                assert(listed[m] == own[k]);
            } else {
                assert(own[k] == listed[last]);
            }
        }
        assert forall|i: int, j: int|
            #![trigger own[i], own[j]]
            0 <= i < j < own.len() implies own[i].0 != own[j].0 by {
            assert(own[i] == before[i]);
            if j < before.len() {
                assert(own[j] == before[j]);
            } else {
                let m = front.index_of(before[i]);
                assert(front.contains(before[i]));
                assert(listed[m] == own[i]);
                assert(listed[m].0 != listed[last].0);
            }
        }
    }
}

proof fn lemma_status_count(app: AppView, state: GitFileState, index: int)
    requires
        lists_by_status(app),
    ensures
        times_shown(status_rows(app, state), index) == if filter_finds(app, index) && is_open(
            item_path(app, index),
            app.tab,
            app.collapsed_groups,
        ) && app.git_changes[index].state == state {
            1nat
        } else {
            0
        },
{
    broadcast use vstd::seq_lib::group_to_multiset_ensures;

    let all = entries(app);
    let tab = app.tab;
    let closed = app.collapsed_groups;
    let own = listed_in(all, app.git_changes, state);
    lemma_entries_once(app);
    lemma_listed_in_once(all, app.git_changes, state);
    law_the_filter_narrows_the_list(app);
    lemma_open_count(own, tab, closed, index);
    law_rows_list_every_open_file(own, None, tab, closed);
    if own.len() > 0 {
        let word = seq![RowView::Status { label: state_label(state) }];
        let rows = rows_from(own, None, tab, closed);
        assert(status_rows(app, state).skip(1) =~= rows);
        assert(file_rows(status_rows(app, state)) =~= file_rows(rows));
    } else {
        assert(file_rows(status_rows(app, state)) =~= Seq::empty());
        assert(open_entries(own, tab, closed) =~= Seq::empty());
    }
    let shown = exists|j: int|
        0 <= j < own.len() && (#[trigger] own[j]).0 == index && is_open(own[j].1, tab, closed);
    if shown {
        let j = choose|j: int|
            0 <= j < own.len() && (#[trigger] own[j]).0 == index && is_open(own[j].1, tab, closed);
        let m = all.index_of(own[j]);
        assert(all.contains(own[j]));
        assert(all[m] == own[j]);
        assert(app.filtered()[m] == index);
        assert(app.filtered().contains(index));
    }
    if filter_finds(app, index) && is_open(item_path(app, index), tab, closed)
        && app.git_changes[index].state == state {
        assert(app.filtered().contains(index));
        let m = app.filtered().index_of(index);
        assert(all[m] == (index, item_path(app, index)));
        let k = lemma_listed_in_keeps(all, app.git_changes, m);
        assert(own[k].0 == index && is_open(own[k].1, tab, closed));
        assert(shown);
    }
}

/// The sidebar shows every item that the filter finds once, unless its folder is
/// closed, and nothing else.
pub proof fn law_the_sidebar_shows_each_item_once(app: AppView, index: int)
    ensures
        times_shown(sidebar_rows(app), index) == if filter_finds(app, index) && is_open(
            item_path(app, index),
            app.tab,
            app.collapsed_groups,
        ) {
            1nat
        } else {
            0
        },
{
    let all = entries(app);
    let tab = app.tab;
    let closed = app.collapsed_groups;
    law_the_filter_narrows_the_list(app);
    lemma_entries_once(app);
    if lists_by_status(app) {
        let a = status_rows(app, GitFileState::Staged);
        let b = status_rows(app, GitFileState::Unstaged);
        let c = status_rows(app, GitFileState::StagedAndUnstaged);
        let d = status_rows(app, GitFileState::Untracked);
        let e = status_rows(app, GitFileState::Committed);
        lemma_shown_in_both(a, b, index);
        lemma_shown_in_both(a + b, c, index);
        lemma_shown_in_both(a + b + c, d, index);
        lemma_shown_in_both(a + b + c + d, e, index);
        lemma_status_count(app, GitFileState::Staged, index);
        lemma_status_count(app, GitFileState::Unstaged, index);
        lemma_status_count(app, GitFileState::StagedAndUnstaged, index);
        lemma_status_count(app, GitFileState::Untracked, index);
        lemma_status_count(app, GitFileState::Committed, index);
    } else {
        law_rows_list_every_open_file(all, None, tab, closed);
        lemma_open_count(all, tab, closed, index);
        let shown = exists|j: int|
            0 <= j < all.len() && (#[trigger] all[j]).0 == index && is_open(all[j].1, tab, closed);
        if shown {
            let j = choose|j: int|
                0 <= j < all.len() && (#[trigger] all[j]).0 == index && is_open(
                    all[j].1,
                    tab,
                    closed,
                );
            assert(app.filtered()[j] == index);
            assert(app.filtered().contains(index));
        }
        if filter_finds(app, index) && is_open(item_path(app, index), tab, closed) {
            assert(app.filtered().contains(index));
            let m = app.filtered().index_of(index);
            assert(all[m].0 == index && is_open(all[m].1, tab, closed));
            assert(shown);
        }
    }
}

proof fn lemma_shown_in_both(a: Seq<RowView>, b: Seq<RowView>, index: int)
    ensures
        times_shown(a + b, index) == times_shown(a, index) + times_shown(b, index),
{
    lemma_file_rows_concat(a, b);
    vstd::seq_lib::lemma_multiset_commutative(file_rows(a), file_rows(b));
}

/// The word over the changes whose edits stand alike.
pub open spec fn word_for(state: GitFileState, word: Seq<char>) -> bool {
    &&& state == GitFileState::Staged ==> word == "staged"@
    &&& state == GitFileState::Unstaged ==> word == "unstaged"@
    &&& state == GitFileState::StagedAndUnstaged ==> word == "mixed"@
    &&& state == GitFileState::Untracked ==> word == "untracked"@
    &&& state == GitFileState::Committed ==> word == "committed"@
}

/// Whether the row at `k` stands under the word for the state, with no other word
/// between.
pub open spec fn under_word(rows: Seq<RowView>, k: int, state: GitFileState) -> bool {
    exists|h: int|
        0 <= h < k && (#[trigger] rows[h] matches RowView::Status { label } && word_for(
            state,
            label,
        )) && no_words(rows, h + 1, k)
}

pub open spec fn no_words(rows: Seq<RowView>, from: int, to: int) -> bool {
    forall|j: int| from <= j < to ==> !(#[trigger] rows[j] is Status)
}

proof fn lemma_rows_without_words(
    listed: Seq<(int, Seq<u8>)>,
    current: Option<Seq<ComponentView>>,
    tab: Tab,
    closed: Set<Group>,
)
    ensures
        forall|k: int|
            0 <= k < rows_from(listed, current, tab, closed).len() ==> !(#[trigger] rows_from(
                listed,
                current,
                tab,
                closed,
            )[k] is Status),
    decreases listed.len(),
{
    if listed.len() > 0 {
        let (index, path) = listed[0];
        let folder = folder_of(path);
        let head = folder_row(folder, current);
        let body = file_row(index, path, tab, closed);
        let tail = rows_from(listed.skip(1), folder_key(folder), tab, closed);
        lemma_rows_without_words(listed.skip(1), folder_key(folder), tab, closed);
        let rows = rows_from(listed, current, tab, closed);
        assert forall|k: int| 0 <= k < rows.len() implies !(#[trigger] rows[k] is Status) by {
            if k < head.len() {
                assert(rows[k] == head[k]);
            } else if k < head.len() + body.len() {
                assert(rows[k] == body[k - head.len()]);
            } else {
                assert(rows[k] == tail[k - head.len() - body.len()]);
            }
        }
    }
}

/// The row at `k` of those under one status, within a longer list.
proof fn lemma_under_own_word(
    app: AppView,
    state: GitFileState,
    before: Seq<RowView>,
    after: Seq<RowView>,
    k: int,
)
    requires
        lists_by_status(app),
        0 <= k < status_rows(app, state).len(),
        status_rows(app, state)[k] is File,
    ensures
        ({
            let rows = before + status_rows(app, state) + after;
            let at = before.len() + k;
            &&& rows[at] == status_rows(app, state)[k]
            &&& app.git_changes[status_rows(app, state)[k]->File_index].state == state
            &&& under_word(rows, at, state)
        }),
{
    let own = status_rows(app, state);
    let rows = before + own + after;
    let at = before.len() + k;
    let h = before.len() as int;
    let listed = listed_in(entries(app), app.git_changes, state);
    law_statuses_hold_their_own_files(app, state, k);
    lemma_rows_without_words(listed, None, app.tab, app.collapsed_groups);
    let inner = rows_from(listed, None, app.tab, app.collapsed_groups);
    assert(rows[at] == own[k]);
    assert(rows[h] == own[0]);
    assert forall|j: int| h + 1 <= j < at implies !(#[trigger] rows[j] is Status) by {
        assert(rows[j] == own[j - h]);
        assert(own[j - h] == inner[j - h - 1]);
    }
    assert(no_words(rows, h + 1, at));
}

/// In Git mode every file stands under the word for where its edits stand, with no
/// other such word between.
pub proof fn law_files_stand_under_their_status(app: AppView, k: int)
    requires
        app.tab == Tab::Changes,
        app.changes_mode == ChangesMode::Git,
        0 <= k < sidebar_rows(app).len(),
        sidebar_rows(app)[k] is File,
    ensures
        ({
            let rows = sidebar_rows(app);
            let index = rows[k]->File_index;
            under_word(rows, k, app.git_changes[index].state)
        }),
{
    let none = Seq::<RowView>::empty();
    let a = status_rows(app, GitFileState::Staged);
    let b = status_rows(app, GitFileState::Unstaged);
    let c = status_rows(app, GitFileState::StagedAndUnstaged);
    let d = status_rows(app, GitFileState::Untracked);
    let e = status_rows(app, GitFileState::Committed);
    let rows = sidebar_rows(app);
    if k < a.len() {
        assert(rows =~= none + a + (b + c + d + e));
        assert(rows[k] == a[k]);
        lemma_under_own_word(app, GitFileState::Staged, none, b + c + d + e, k);
    } else if k < a.len() + b.len() {
        assert(rows =~= a + b + (c + d + e));
        let at = k - a.len();
        assert(rows[k] == b[at]);
        lemma_under_own_word(app, GitFileState::Unstaged, a, c + d + e, at);
    } else if k < a.len() + b.len() + c.len() {
        assert(rows =~= (a + b) + c + (d + e));
        let at = k - a.len() - b.len();
        assert(rows[k] == c[at]);
        lemma_under_own_word(app, GitFileState::StagedAndUnstaged, a + b, d + e, at);
    } else if k < a.len() + b.len() + c.len() + d.len() {
        assert(rows =~= (a + b + c) + d + e);
        let at = k - a.len() - b.len() - c.len();
        assert(rows[k] == d[at]);
        lemma_under_own_word(app, GitFileState::Untracked, a + b + c, e, at);
    } else {
        assert(rows =~= (a + b + c + d) + e + none);
        let at = k - a.len() - b.len() - c.len() - d.len();
        assert(rows[k] == e[at]);
        lemma_under_own_word(app, GitFileState::Committed, a + b + c + d, none, at);
    }
}

/// Under the word for a status stand the files of that status and no others, and
/// the word stands only where there is one.
pub proof fn law_statuses_hold_their_own_files(app: AppView, state: GitFileState, k: int)
    requires
        app.tab == Tab::Changes,
        app.changes_mode == ChangesMode::Git,
        0 <= k < status_rows(app, state).len(),
    ensures
        status_rows(app, state)[0] == (RowView::Status { label: state_label(state) }),
        status_rows(app, state)[k] matches RowView::File { index, .. }
            ==> app.git_changes[index].state == state,
        listed_in(entries(app), app.git_changes, state).len() > 0,
{
    let everything = Set::new(|index: int| true);
    let own = listed_in(entries(app), app.git_changes, state);
    let items = Set::new(|index: int| app.git_changes[index].state == state);
    lemma_listed_in_among(entries(app), app.git_changes, state, everything);
    assert(all_among(own, items));
    lemma_rows_from_among(own, None, app.tab, app.collapsed_groups, items);
    let rows = rows_from(own, None, app.tab, app.collapsed_groups);
    if k > 0 {
        assert(status_rows(app, state)[k] == rows[k - 1]);
    }
}

/// The counts beside a change are of its own diff, of those lines that it adds and those
/// that it deletes; where the diff has not been read, and among the files, there are none.
pub proof fn law_counts_are_of_the_diff_beside_them(app: AppView, index: int)
    ensures
        app.tab == Tab::Files ==> item_stats(app, index) is None,
        app.tab == Tab::Changes ==> {
            let read = match app.changes_mode {
                ChangesMode::Agent => cached(app.diff_cache, index as usize),
                ChangesMode::Git => cached(app.git_diff_cache, index as usize),
            };
            match read {
                None => item_stats(app, index) is None,
                Some(lines) => item_stats(app, index) == Some(
                    (
                        views(lines@).filter(
                            |line: DiffLineView| line.kind == DiffLineKind::Addition,
                        ).len(),
                        views(lines@).filter(
                            |line: DiffLineView| line.kind == DiffLineKind::Deletion,
                        ).len(),
                    ),
                ),
            }
        },
{
    let read = match app.changes_mode {
        ChangesMode::Agent => cached(app.diff_cache, index as usize),
        ChangesMode::Git => cached(app.git_diff_cache, index as usize),
    };
    if let Some(lines) = read {
        law_counts_are_of_lines(views(lines@));
    }
}

/// But for Git's changes, which stand by their status, no row of the sidebar is a word; a
/// file is shown by its own name, and where it is in a folder it stands under the row of
/// that folder, with nothing but files between.
pub proof fn law_files_stand_under_their_own_folders(app: AppView, k: int)
    requires
        app.tab == Tab::Files || app.changes_mode == ChangesMode::Agent,
        0 <= k < sidebar_rows(app).len(),
    ensures
        !(sidebar_rows(app)[k] is Status),
        sidebar_rows(app)[k] matches RowView::File { index, .. } ==> {
            let path = match app.tab {
                Tab::Files => app.files[index].relative,
                Tab::Changes => app.changes[index].path,
            };
            &&& row_shows(sidebar_rows(app)[k], index, path)
            &&& is_nested(path) ==> stands_under(sidebar_rows(app), k, folder_parts(path))
            &&& is_open(path, app.tab, app.collapsed_groups)
        },
{
    let all = entries(app);
    lemma_rows_without_words(all, None, app.tab, app.collapsed_groups);
    if sidebar_rows(app)[k] is File {
        let e = law_files_stand_under_their_folders(all, app.tab, app.collapsed_groups, k);
        assert(all[e].1 == item_path(app, all[e].0));
    }
}

/// Among Git's changes of one status a file is shown by its own name too, and stands under
/// the row of its folder.
pub proof fn law_changes_of_a_status_stand_under_their_folders(
    app: AppView,
    state: GitFileState,
    k: int,
)
    requires
        app.tab == Tab::Changes,
        app.changes_mode == ChangesMode::Git,
        0 < k < status_rows(app, state).len(),
        status_rows(app, state)[k] is File,
    ensures
        ({
            let rows = status_rows(app, state).skip(1);
            let index = status_rows(app, state)[k]->File_index;
            let path = app.git_changes[index].path;
            &&& row_shows(rows[k - 1], index, path)
            &&& is_nested(path) ==> stands_under(rows, k - 1, folder_parts(path))
        }),
{
    let own = listed_in(entries(app), app.git_changes, state);
    let rows = rows_from(own, None, app.tab, app.collapsed_groups);
    assert(status_rows(app, state).skip(1) =~= rows);
    let e = law_files_stand_under_their_folders(own, app.tab, app.collapsed_groups, k - 1);
    lemma_listed_paths(app, entries(app), state);
}

proof fn lemma_listed_paths(app: AppView, listed: Seq<(int, Seq<u8>)>, state: GitFileState)
    requires
        forall|j: int|
            0 <= j < listed.len() ==> (#[trigger] listed[j]).1 == item_path(app, listed[j].0),
    ensures
        forall|j: int|
            0 <= j < listed_in(listed, app.git_changes, state).len() ==> (#[trigger] listed_in(
                listed,
                app.git_changes,
                state,
            )[j]).1 == item_path(app, listed_in(listed, app.git_changes, state)[j].0),
    decreases listed.len(),
{
    if listed.len() > 0 {
        assert forall|j: int| 0 <= j < listed.drop_last().len() implies (
        #[trigger] listed.drop_last()[j]).1 == item_path(app, listed.drop_last()[j].0) by {
            assert(listed.drop_last()[j] == listed[j]);
        }
        lemma_listed_paths(app, listed.drop_last(), state);
        assert(listed[listed.len() - 1].1 == item_path(app, listed[listed.len() - 1].0));
        assert(listed.last() == listed[listed.len() - 1]);
        let rest = listed_in(listed.drop_last(), app.git_changes, state);
        let all = listed_in(listed, app.git_changes, state);
        assert forall|j: int| 0 <= j < all.len() implies (#[trigger] all[j]).1 == item_path(
            app,
            all[j].0,
        ) by {
            if j < rest.len() {
                assert(all[j] == rest[j]);
            }
        }
    }
}

} // verus!

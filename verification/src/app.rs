//! The state of the viewer and how it answers to results, keys and the mouse.
use vstd::prelude::*;
use vstd::utf8::encode_utf8;

use crate::cache::{cached, empty_cache, with_entry, Cache, CacheState};
use crate::diff::{DiffLine, DiffLineView};
use crate::git::{
    by_state, group_by_state, law_grouping_keeps_every_change, law_groups_stand_in_order,
    state_place, GitChange, GitChangeView, GitFileState,
};
use crate::layout::{minus, spec_min, Rect};
use crate::model::{Change, ChangeView, CurrentFile, FileView, Manifest, ManifestView};
use crate::navigation::{
    change_indices, file_indices, filtered_change_indices, filtered_file_indices,
    filtered_git_indices, git_indices, lemma_chosen,
};
use crate::queue::{ScanResult, ScanResultView, WorkResult};
use crate::scrollbar::ScrollbarDrag;
use crate::seqs::{group_views, option_view, views};
use crate::sets::{Group, GroupSet, Request, RequestSet, Tab};
use crate::sort::as_ints;
use crate::source::ColoredSpan;
use crate::width::plus;

verus! {

/// Which changes the Changes tab shows: those since the agent's session began,
/// or those that Git knows of.
#[derive(Clone, Copy, Debug, PartialEq, Eq, Structural)]
pub enum ChangesMode {
    Agent,
    Git,
}

pub open spec fn mode_label(mode: ChangesMode) -> Seq<char> {
    match mode {
        ChangesMode::Agent => "Agent diff"@,
        ChangesMode::Git => "Git diff"@,
    }
}

impl ChangesMode {
    pub fn label(self) -> (text: &'static str)
        ensures
            text@ == mode_label(self),
    {
        match self {
            ChangesMode::Agent => "Agent diff",
            ChangesMode::Git => "Git diff",
        }
    }
}

/// Whether the Git changes have been read.
#[derive(Clone, Copy, Debug, PartialEq, Eq, Structural)]
pub enum GitState {
    Unloaded,
    Loading,
    Loaded,
}

/// The part of the screen that keys act on.
#[derive(Clone, Copy, Debug, PartialEq, Eq, Structural)]
pub enum Focus {
    Navigation,
    Content,
}

/// What is typed for, or what covers the screen.
#[derive(Clone, Copy, Debug, PartialEq, Eq, Structural)]
pub enum Mode {
    Normal,
    Help,
    Filter,
}

/// Where a tab stands: which item is selected, how far its list and its content
/// are scrolled, and what it is filtered by.
#[derive(Debug)]
pub struct TabState {
    pub selected: usize,
    pub list_scroll_y: usize,
    pub scroll_y: usize,
    pub scroll_x: usize,
    pub filter: String,
    /// The folder that the cursor of the sidebar was put on, if on one.
    pub folder: Option<Vec<u8>>,
}

pub ghost struct TabView {
    pub selected: int,
    pub list_scroll_y: int,
    pub scroll_y: int,
    pub scroll_x: int,
    pub filter: Seq<char>,
    pub folder: Option<Seq<u8>>,
}

impl View for TabState {
    type V = TabView;

    open spec fn view(&self) -> TabView {
        TabView {
            selected: self.selected as int,
            list_scroll_y: self.list_scroll_y as int,
            scroll_y: self.scroll_y as int,
            scroll_x: self.scroll_x as int,
            filter: self.filter@,
            folder: option_view(self.folder),
        }
    }
}

pub open spec fn tab_start() -> TabView {
    TabView {
        selected: 0,
        list_scroll_y: 0,
        scroll_y: 0,
        scroll_x: 0,
        filter: Seq::empty(),
        folder: None,
    }
}

impl Default for TabState {
    fn default() -> (state: Self)
        ensures
            state@ == tab_start(),
    {
        let state = TabState {
            selected: 0,
            list_scroll_y: 0,
            scroll_y: 0,
            scroll_x: 0,
            filter: String::new(),
            folder: None,
        };
        proof {
            assert(state.filter@ =~= Seq::empty());
        }
        state
    }
}

/// A place in the text of a tab.
#[derive(Clone, Copy, Debug, PartialEq, Eq, Structural)]
pub struct EditorCursor {
    pub tab: Tab,
    pub line: usize,
    pub column: usize,
}

/// A stretch of text between where it was begun and where it was last extended
/// to.
#[derive(Clone, Copy, Debug, PartialEq, Eq, Structural)]
pub struct EditorSelection {
    pub tab: Tab,
    pub anchor: EditorCursor,
    pub active: EditorCursor,
}

/// The viewer.
#[derive(Debug)]
pub struct App {
    pub tab: Tab,
    pub changes_mode: ChangesMode,
    pub focus: Focus,
    pub changes_state: TabState,
    pub files_state: TabState,
    pub manifest: Option<Manifest>,
    pub target_pane_id: String,
    pub changes: Vec<Change>,
    pub git_changes: Vec<GitChange>,
    pub files: Vec<CurrentFile>,
    pub notices: Vec<String>,
    pub loading: bool,
    pub capturing: bool,
    pub mode: Mode,
    pub sidebar_hidden: bool,
    pub generation: u64,
    pub render_generation: u64,
    pub requested: RequestSet,
    pub diff_cache: Cache<Vec<DiffLine>>,
    pub git_diff_cache: Cache<Vec<DiffLine>>,
    pub source_cache: Cache<Vec<Vec<ColoredSpan>>>,
    pub source_notices: Cache<String>,
    pub scan_error: Option<String>,
    pub git_error: Option<String>,
    pub git_state: GitState,
    pub cursor: Option<EditorCursor>,
    pub selection: Option<EditorSelection>,
    pub scrollbar_drag: Option<ScrollbarDrag>,
    pub collapsed_groups: GroupSet,
    /// Milliseconds on the clock when the cursor was last placed.
    pub cursor_blink_started: u64,
    /// Milliseconds on the clock now, as last told.
    pub now_millis: u64,
    /// Text that waits to be put on the clipboard.
    pub clipboard: Option<String>,
    pub viewport: Rect,
}

pub ghost struct AppView {
    pub tab: Tab,
    pub changes_mode: ChangesMode,
    pub focus: Focus,
    pub changes_state: TabView,
    pub files_state: TabView,
    pub manifest: Option<ManifestView>,
    pub target_pane_id: Seq<char>,
    pub changes: Seq<ChangeView>,
    pub git_changes: Seq<GitChangeView>,
    pub files: Seq<FileView>,
    pub notices: Seq<Seq<char>>,
    pub loading: bool,
    pub capturing: bool,
    pub mode: Mode,
    pub sidebar_hidden: bool,
    pub generation: u64,
    pub render_generation: u64,
    pub requested: Set<Request>,
    pub diff_cache: CacheState<Vec<DiffLine>>,
    pub git_diff_cache: CacheState<Vec<DiffLine>>,
    pub source_cache: CacheState<Vec<Vec<ColoredSpan>>>,
    pub source_notices: CacheState<String>,
    pub scan_error: Option<Seq<char>>,
    pub git_error: Option<Seq<char>>,
    pub git_state: GitState,
    pub cursor: Option<EditorCursor>,
    pub selection: Option<EditorSelection>,
    pub scrollbar_drag: Option<ScrollbarDrag>,
    pub collapsed_groups: Set<Group>,
    pub cursor_blink_started: u64,
    pub now_millis: u64,
    pub clipboard: Option<Seq<char>>,
    pub viewport: Rect,
}

impl View for App {
    type V = AppView;

    open spec fn view(&self) -> AppView {
        AppView {
            tab: self.tab,
            changes_mode: self.changes_mode,
            focus: self.focus,
            changes_state: self.changes_state@,
            files_state: self.files_state@,
            manifest: option_view(self.manifest),
            target_pane_id: self.target_pane_id@,
            changes: views(self.changes@),
            git_changes: views(self.git_changes@),
            files: views(self.files@),
            notices: views(self.notices@),
            loading: self.loading,
            capturing: self.capturing,
            mode: self.mode,
            sidebar_hidden: self.sidebar_hidden,
            generation: self.generation,
            render_generation: self.render_generation,
            requested: self.requested@,
            diff_cache: self.diff_cache@,
            git_diff_cache: self.git_diff_cache@,
            source_cache: self.source_cache@,
            source_notices: self.source_notices@,
            scan_error: option_view(self.scan_error),
            git_error: option_view(self.git_error),
            git_state: self.git_state,
            cursor: self.cursor,
            selection: self.selection,
            scrollbar_drag: self.scrollbar_drag,
            collapsed_groups: self.collapsed_groups@,
            cursor_blink_started: self.cursor_blink_started,
            now_millis: self.now_millis,
            clipboard: option_view(self.clipboard),
            viewport: self.viewport,
        }
    }
}

impl AppView {
    /// Whether the caches are in order and the screen is one that can be counted
    /// on.
    pub open spec fn well_formed(self) -> bool {
        &&& self.diff_cache.well_formed()
        &&& self.git_diff_cache.well_formed()
        &&& self.source_cache.well_formed()
        &&& self.source_notices.well_formed()
        &&& self.viewport.fits()
    }

    /// Where the tab that is shown stands.
    pub open spec fn active(self) -> TabView {
        match self.tab {
            Tab::Changes => self.changes_state,
            Tab::Files => self.files_state,
        }
    }

    /// With the tab that is shown elsewhere.
    pub open spec fn with_active(self, state: TabView) -> AppView {
        match self.tab {
            Tab::Changes => AppView { changes_state: state, ..self },
            Tab::Files => AppView { files_state: state, ..self },
        }
    }

    /// The items of the tab that the filter lets through, by index.
    pub open spec fn filtered(self) -> Seq<int> {
        match self.tab {
            Tab::Changes => match self.changes_mode {
                ChangesMode::Agent => change_indices(self.changes, self.changes_state.filter),
                ChangesMode::Git => git_indices(self.git_changes, self.changes_state.filter),
            },
            Tab::Files => file_indices(self.files, self.files_state.filter),
        }
    }

    /// How many items the tab has, filtered or not.
    pub open spec fn item_count(self) -> nat {
        match self.tab {
            Tab::Changes => match self.changes_mode {
                ChangesMode::Agent => self.changes.len(),
                ChangesMode::Git => self.git_changes.len(),
            },
            Tab::Files => self.files.len(),
        }
    }

    /// The item that is selected, by index.
    pub open spec fn selected_item(self) -> Option<int> {
        if 0 <= self.active().selected < self.filtered().len() {
            Some(self.filtered()[self.active().selected])
        } else {
            None
        }
    }
}

/// The viewer before anything has arrived.
pub open spec fn app_start(
    manifest: Option<ManifestView>,
    capturing: bool,
    target_pane_id: Seq<char>,
) -> AppView {
    AppView {
        tab: Tab::Changes,
        changes_mode: ChangesMode::Agent,
        focus: Focus::Navigation,
        changes_state: tab_start(),
        files_state: tab_start(),
        manifest,
        target_pane_id,
        changes: Seq::empty(),
        git_changes: Seq::empty(),
        files: Seq::empty(),
        notices: Seq::empty(),
        loading: true,
        capturing,
        mode: Mode::Normal,
        sidebar_hidden: false,
        generation: 1,
        render_generation: 0,
        requested: Set::empty(),
        diff_cache: empty_cache(),
        git_diff_cache: empty_cache(),
        source_cache: empty_cache(),
        source_notices: empty_cache(),
        scan_error: None,
        git_error: None,
        git_state: GitState::Unloaded,
        cursor: None,
        selection: None,
        scrollbar_drag: None,
        collapsed_groups: Set::empty(),
        cursor_blink_started: 0,
        now_millis: 0,
        clipboard: None,
        viewport: Rect { x: 0, y: 0, width: 0, height: 0 },
    }
}

pub open spec fn next_generation(generation: u64) -> u64 {
    if generation == u64::MAX {
        generation
    } else {
        (generation + 1) as u64
    }
}

/// The selections moved back to the last item where they stand behind it.
pub open spec fn clamped(app: AppView) -> AppView {
    let changes = match app.changes_mode {
        ChangesMode::Agent => change_indices(app.changes, app.changes_state.filter).len(),
        ChangesMode::Git => git_indices(app.git_changes, app.changes_state.filter).len(),
    };
    let files = file_indices(app.files, app.files_state.filter).len();
    AppView {
        changes_state: TabView {
            selected: spec_min(app.changes_state.selected, minus(changes as int, 1)),
            ..app.changes_state
        },
        files_state: TabView {
            selected: spec_min(app.files_state.selected, minus(files as int, 1)),
            ..app.files_state
        },
        ..app
    }
}

/// Bytes of a text.
pub open spec fn byte_length(text: Seq<char>) -> usize {
    encode_utf8(text).len() as usize
}

/// Bytes of the text of the first `count` lines.
pub open spec fn line_bytes(lines: Seq<DiffLineView>, count: int) -> int
    decreases count,
{
    if count <= 0 {
        0
    } else {
        plus(
            line_bytes(lines, count - 1),
            byte_length(lines[count - 1].text) as int,
        )
    }
}

/// Bytes of the text of the first `count` pieces.
pub open spec fn piece_bytes(pieces: Seq<ColoredSpan>, count: int) -> int
    decreases count,
{
    if count <= 0 {
        0
    } else {
        plus(
            piece_bytes(pieces, count - 1),
            byte_length(pieces[count - 1].text@) as int,
        )
    }
}

/// Bytes of the text of the first `count` lines of a source.
pub open spec fn source_bytes(lines: Seq<Vec<ColoredSpan>>, count: int) -> int
    decreases count,
{
    if count <= 0 {
        0
    } else {
        plus(
            source_bytes(lines, count - 1),
            piece_bytes(lines[count - 1]@, lines[count - 1]@.len() as int),
        )
    }
}

/// The viewer once a scan has been taken in.
pub open spec fn after_scan(app: AppView, result: ScanResultView) -> AppView {
    let started = AppView {
        render_generation: next_generation(app.render_generation),
        requested: Set::empty(),
        ..app
    };
    let taken = if result.error is None {
        clamped(
            AppView {
                manifest: result.baseline,
                capturing: result.capturing,
                files: result.files,
                changes: result.changes,
                diff_cache: empty_cache(),
                source_cache: empty_cache(),
                source_notices: empty_cache(),
                git_changes: Seq::empty(),
                git_diff_cache: empty_cache(),
                git_error: None,
                git_state: GitState::Unloaded,
                ..started
            },
        )
    } else {
        started
    };
    AppView { scan_error: result.error, notices: result.notices, loading: false, ..taken }
}

/// The viewer once a result has been taken in; one of an earlier generation
/// changes nothing.
pub open spec fn after_result(app: AppView, result: WorkResult) -> AppView {
    match result {
        WorkResult::Scan(scan) => if scan.generation == app.generation {
            after_scan(app, scan@)
        } else {
            app
        },
        WorkResult::Diff { generation, index, lines } => if generation == app.render_generation {
            AppView {
                diff_cache: with_entry(
                    app.diff_cache,
                    index,
                    lines,
                    line_bytes(views(lines@), lines@.len() as int) as usize,
                ),
                requested: app.requested.remove((Tab::Changes, index, generation)),
                ..app
            }
        } else {
            app
        },
        WorkResult::Highlight { generation, index, lines, notice } => if generation
            == app.render_generation {
            AppView {
                source_cache: with_entry(
                    app.source_cache,
                    index,
                    lines,
                    source_bytes(lines@, lines@.len() as int) as usize,
                ),
                source_notices: match notice {
                    Some(text) => with_entry(
                        app.source_notices,
                        index,
                        text,
                        byte_length(text@),
                    ),
                    None => app.source_notices,
                },
                requested: app.requested.remove((Tab::Files, index, generation)),
                ..app
            }
        } else {
            app
        },
        WorkResult::GitScan { generation, changes, error } => if generation
            == app.render_generation {
            let started = AppView { git_state: GitState::Loaded, requested: Set::empty(), ..app };
            let taken = if error is None {
                clamped(
                    AppView {
                        git_changes: by_state(views(changes@)),
                        git_diff_cache: empty_cache(),
                        ..started
                    },
                )
            } else {
                started
            };
            AppView { git_error: option_view(error), ..taken }
        } else {
            app
        },
        WorkResult::GitDiff { generation, index, lines } => if generation == app.render_generation {
            AppView {
                git_diff_cache: with_entry(
                    app.git_diff_cache,
                    index,
                    lines,
                    line_bytes(views(lines@), lines@.len() as int) as usize,
                ),
                requested: app.requested.remove((Tab::Changes, index, generation)),
                ..app
            }
        } else {
            app
        },
    }
}

fn bytes_of_lines(lines: &Vec<DiffLine>) -> (bytes: usize)
    ensures
        bytes == line_bytes(views(lines@), lines@.len() as int),
{
    let ghost all = views(lines@);
    let mut bytes: usize = 0;
    let mut i: usize = 0;
    while i < lines.len()
        invariant
            i <= lines@.len(),
            all == views(lines@),
            bytes == line_bytes(all, i as int),
        decreases lines@.len() - i,
    {
        bytes = bytes.saturating_add(lines[i].text.as_str().len());
        i += 1;
    }
    bytes
}

fn bytes_of_source(lines: &Vec<Vec<ColoredSpan>>) -> (bytes: usize)
    ensures
        bytes == source_bytes(lines@, lines@.len() as int),
{
    let mut bytes: usize = 0;
    let mut i: usize = 0;
    while i < lines.len()
        invariant
            i <= lines@.len(),
            bytes == source_bytes(lines@, i as int),
        decreases lines@.len() - i,
    {
        let mut line: usize = 0;
        let mut k: usize = 0;
        while k < lines[i].len()
            invariant
                i < lines@.len(),
                k <= lines@[i as int]@.len(),
                line == piece_bytes(lines@[i as int]@, k as int),
            decreases lines@[i as int]@.len() - k,
        {
            line = line.saturating_add(lines[i][k].text.as_str().len());
            k += 1;
        }
        bytes = bytes.saturating_add(line);
        i += 1;
    }
    bytes
}

pub proof fn lemma_filtered(app: AppView)
    ensures
        app.filtered().len() <= app.item_count(),
        forall|k: int|
            0 <= k < app.filtered().len() ==> 0 <= #[trigger] app.filtered()[k]
                < app.item_count(),
{
    match app.tab {
        Tab::Changes => match app.changes_mode {
            ChangesMode::Agent => {
                lemma_chosen(
                    Seq::new(
                        app.changes.len(),
                        |i: int|
                            crate::navigation::change_matches(
                                app.changes[i],
                                app.changes_state.filter,
                            ),
                    ),
                );
            },
            ChangesMode::Git => {
                lemma_chosen(
                    Seq::new(
                        app.git_changes.len(),
                        |i: int|
                            crate::navigation::git_matches(
                                app.git_changes[i],
                                app.changes_state.filter,
                            ),
                    ),
                );
            },
        },
        Tab::Files => {
            lemma_chosen(
                Seq::new(
                    app.files.len(),
                    |i: int|
                        crate::navigation::file_matches(app.files[i], app.files_state.filter),
                ),
            );
        },
    }
}

impl App {
    /// The viewer before anything has arrived.
    pub fn new(manifest: Option<Manifest>, capturing: bool, target_pane_id: String) -> (app: App)
        ensures
            app@ == app_start(option_view(manifest), capturing, target_pane_id@),
            app@.well_formed(),
    {
        broadcast use group_views;

        App {
            tab: Tab::Changes,
            changes_mode: ChangesMode::Agent,
            focus: Focus::Navigation,
            changes_state: TabState::default(),
            files_state: TabState::default(),
            manifest,
            target_pane_id,
            changes: Vec::new(),
            git_changes: Vec::new(),
            files: Vec::new(),
            notices: Vec::new(),
            loading: true,
            capturing,
            mode: Mode::Normal,
            sidebar_hidden: false,
            generation: 1,
            render_generation: 0,
            requested: RequestSet::new(),
            diff_cache: Cache::new(),
            git_diff_cache: Cache::new(),
            source_cache: Cache::new(),
            source_notices: Cache::new(),
            scan_error: None,
            git_error: None,
            git_state: GitState::Unloaded,
            cursor: None,
            selection: None,
            scrollbar_drag: None,
            collapsed_groups: GroupSet::new(),
            cursor_blink_started: 0,
            now_millis: 0,
            clipboard: None,
            viewport: Rect::default(),
        }
    }

    /// Where the tab that is shown stands.
    pub fn active_state(&self) -> (state: &TabState)
        ensures
            state@ == self@.active(),
    {
        match self.tab {
            Tab::Changes => &self.changes_state,
            Tab::Files => &self.files_state,
        }
    }

    /// Where the tab that is shown stands, to be changed.
    pub fn active_state_mut(&mut self) -> (state: &mut TabState)
        ensures
            (*state)@ == old(self)@.active(),
            final(self)@ == old(self)@.with_active((*final(state))@),
    {
        match self.tab {
            Tab::Changes => &mut self.changes_state,
            Tab::Files => &mut self.files_state,
        }
    }

    /// The items of the tab that the filter lets through, by index.
    pub fn filtered_indices(&self) -> (indices: Vec<usize>)
        ensures
            as_ints(indices@) == self@.filtered(),
            indices@.len() == self@.filtered().len(),
    {
        let indices = match self.tab {
            Tab::Changes => match self.changes_mode {
                ChangesMode::Agent => filtered_change_indices(
                    &self.changes,
                    self.changes_state.filter.as_str(),
                ),
                ChangesMode::Git => filtered_git_indices(
                    &self.git_changes,
                    self.changes_state.filter.as_str(),
                ),
            },
            Tab::Files => filtered_file_indices(&self.files, self.files_state.filter.as_str()),
        };
        proof {
            assert(as_ints(indices@).len() == indices@.len());
        }
        indices
    }

    /// The item that is selected, by index.
    pub fn actual_selected(&self) -> (selected: Option<usize>)
        ensures
            (match selected {
                Some(index) => Some(index as int),
                None => None,
            }) == self@.selected_item(),
            selected matches Some(index) ==> index < self@.item_count(),
    {
        let indices = self.filtered_indices();
        let at = self.active_state().selected;
        proof {
            lemma_filtered(self@);
        }
        if at < indices.len() {
            proof {
                assert(as_ints(indices@)[at as int] == indices@[at as int] as int);
            }
            Some(indices[at])
        } else {
            None
        }
    }

    /// Moves the selections back to the last item where they stand behind it.
    pub fn clamp_selections(&mut self)
        ensures
            final(self)@ == clamped(old(self)@),
    {
        let change_count = match self.changes_mode {
            ChangesMode::Agent => {
                let indices = filtered_change_indices(
                    &self.changes,
                    self.changes_state.filter.as_str(),
                );
                proof {
                    assert(as_ints(indices@).len() == indices@.len());
                }
                indices.len()
            },
            ChangesMode::Git => {
                let indices = filtered_git_indices(
                    &self.git_changes,
                    self.changes_state.filter.as_str(),
                );
                proof {
                    assert(as_ints(indices@).len() == indices@.len());
                }
                indices.len()
            },
        };
        let file_list = filtered_file_indices(&self.files, self.files_state.filter.as_str());
        proof {
            assert(as_ints(file_list@).len() == file_list@.len());
        }
        let file_count = file_list.len();
        let last_change = change_count.saturating_sub(1);
        if self.changes_state.selected > last_change {
            self.changes_state.selected = last_change;
        }
        let last_file = file_count.saturating_sub(1);
        if self.files_state.selected > last_file {
            self.files_state.selected = last_file;
        }
    }

    fn apply_scan(&mut self, found: ScanResult)
        requires
            old(self)@.well_formed(),
        ensures
            final(self)@ == after_scan(old(self)@, found@),
            final(self)@.well_formed(),
    {
        broadcast use group_views;

        let ghost before = self@;
        self.render_generation = self.render_generation.saturating_add(1);
        self.requested.clear();
        let ghost started = self@;
        proof {
            assert(started == AppView {
                render_generation: next_generation(before.render_generation),
                requested: Set::empty(),
                ..before
            });
        }
        if found.error.is_none() {
            self.manifest = found.baseline;
            self.capturing = found.capturing;
            self.files = found.files;
            self.changes = found.changes;
            self.diff_cache.clear();
            self.source_cache.clear();
            self.source_notices.clear();
            self.git_changes.clear();
            self.git_diff_cache.clear();
            self.git_error = None;
            self.git_state = GitState::Unloaded;
            self.clamp_selections();
        }
        self.scan_error = found.error;
        self.notices = found.notices;
        self.loading = false;
    }

    fn apply_diff(&mut self, generation: u64, index: usize, lines: Vec<DiffLine>)
        requires
            old(self)@.well_formed(),
            generation == old(self)@.render_generation,
        ensures
            final(self)@ == after_result(
                old(self)@,
                WorkResult::Diff { generation, index, lines },
            ),
            final(self)@.well_formed(),
    {
        let bytes = bytes_of_lines(&lines);
        self.diff_cache.insert(index, lines, bytes);
        self.requested.remove((Tab::Changes, index, generation));
    }

    fn apply_highlight(
        &mut self,
        generation: u64,
        index: usize,
        lines: Vec<Vec<ColoredSpan>>,
        notice: Option<String>,
    )
        requires
            old(self)@.well_formed(),
            generation == old(self)@.render_generation,
        ensures
            final(self)@ == after_result(
                old(self)@,
                WorkResult::Highlight { generation, index, lines, notice },
            ),
            final(self)@.well_formed(),
    {
        let bytes = bytes_of_source(&lines);
        self.source_cache.insert(index, lines, bytes);
        if let Some(text) = notice {
            let bytes = text.as_str().len();
            self.source_notices.insert(index, text, bytes);
        }
        self.requested.remove((Tab::Files, index, generation));
    }

    fn apply_git_scan(&mut self, generation: u64, changes: Vec<GitChange>, error: Option<String>)
        requires
            old(self)@.well_formed(),
            generation == old(self)@.render_generation,
        ensures
            final(self)@ == after_result(
                old(self)@,
                WorkResult::GitScan { generation, changes, error },
            ),
            final(self)@.well_formed(),
    {
        self.git_state = GitState::Loaded;
        self.requested.clear();
        if error.is_none() {
            self.git_changes = group_by_state(&changes);
            self.git_diff_cache.clear();
            self.clamp_selections();
        }
        self.git_error = error;
    }

    fn apply_git_diff(&mut self, generation: u64, index: usize, lines: Vec<DiffLine>)
        requires
            old(self)@.well_formed(),
            generation == old(self)@.render_generation,
        ensures
            final(self)@ == after_result(
                old(self)@,
                WorkResult::GitDiff { generation, index, lines },
            ),
            final(self)@.well_formed(),
    {
        let bytes = bytes_of_lines(&lines);
        self.git_diff_cache.insert(index, lines, bytes);
        self.requested.remove((Tab::Changes, index, generation));
    }

    /// Takes in what came of a task; what is of an earlier generation is dropped.
    pub fn apply_result(&mut self, result: WorkResult)
        requires
            old(self)@.well_formed(),
        ensures
            final(self)@ == after_result(old(self)@, result),
            final(self)@.well_formed(),
    {
        match result {
            WorkResult::Scan(scan) => {
                if scan.generation == self.generation {
                    self.apply_scan(*scan);
                }
            },
            WorkResult::Diff { generation, index, lines } => {
                if generation == self.render_generation {
                    self.apply_diff(generation, index, lines);
                }
            },
            WorkResult::Highlight { generation, index, lines, notice } => {
                if generation == self.render_generation {
                    self.apply_highlight(generation, index, lines, notice);
                }
            },
            WorkResult::GitScan { generation, changes, error } => {
                if generation == self.render_generation {
                    self.apply_git_scan(generation, changes, error);
                }
            },
            WorkResult::GitDiff { generation, index, lines } => {
                if generation == self.render_generation {
                    self.apply_git_diff(generation, index, lines);
                }
            },
        }
    }
}

/// A result of another generation than the one that is waited for changes
/// nothing.
pub proof fn law_old_results_are_dropped(app: AppView, result: WorkResult)
    requires
        match result {
            WorkResult::Scan(scan) => scan.generation != app.generation,
            WorkResult::Diff { generation, .. } => generation != app.render_generation,
            WorkResult::Highlight { generation, .. } => generation != app.render_generation,
            WorkResult::GitScan { generation, .. } => generation != app.render_generation,
            WorkResult::GitDiff { generation, .. } => generation != app.render_generation,
        },
    ensures
        after_result(app, result) == app,
{
}

/// Once the selections have been moved back, the tab has a selected item wherever
/// it lists one, and a second time changes nothing.
pub proof fn law_clamped_selection_is_an_item(app: AppView)
    requires
        app.active().selected >= 0,
    ensures
        clamped(app).filtered() == app.filtered(),
        app.filtered().len() > 0 ==> clamped(app).selected_item() is Some,
        clamped(clamped(app)) == clamped(app),
{
}

/// A scan that failed leaves what was read before it on the screen.
pub proof fn law_failed_scan_keeps_what_was_read(app: AppView, result: ScanResultView)
    requires
        result.error is Some,
    ensures
        ({
            let after = after_scan(app, result);
            &&& after.files == app.files
            &&& after.changes == app.changes
            &&& after.git_changes == app.git_changes
            &&& after.manifest == app.manifest
            &&& after.diff_cache == app.diff_cache
            &&& after.source_cache == app.source_cache
            &&& after.selected_item() == app.selected_item()
            &&& after.scan_error == result.error
            &&& !after.loading
        }),
{
    assert(after_scan(app, result).filtered() == app.filtered());
}

/// A scan that went well is what is on the screen after it: the files and the changes
/// that it found, the baseline that it compared them with and what it noticed, with
/// nothing left of what was read before.
pub proof fn law_a_scan_is_taken_in(app: AppView, scan: ScanResult)
    requires
        scan.generation == app.generation,
        scan.error is None,
    ensures
        ({
            let after = after_result(app, WorkResult::Scan(Box::new(scan)));
            &&& after.files == views(scan.files@)
            &&& after.changes == views(scan.changes@)
            &&& after.notices == views(scan.notices@)
            &&& after.manifest == option_view(scan.baseline)
            &&& after.capturing == scan.capturing
            &&& after.scan_error is None
            &&& !after.loading
            &&& after.git_changes.len() == 0
            &&& after.git_state == GitState::Unloaded
            &&& after.requested == Set::<Request>::empty()
            &&& forall|key: usize| cached(after.diff_cache, key) is None
            &&& forall|key: usize| cached(after.git_diff_cache, key) is None
            &&& forall|key: usize| cached(after.source_cache, key) is None
            &&& forall|key: usize| cached(after.source_notices, key) is None
            &&& after.tab == app.tab
            &&& after.focus == app.focus
            &&& after.active().filter == app.active().filter
            &&& after.active().selected <= app.active().selected
        }),
{
}

/// The changes that Git told of are all listed, each as often as it was told of, one
/// state after another; where asking Git went wrong, what was listed stays and the
/// reason is told.
pub proof fn law_a_git_scan_is_taken_in(
    app: AppView,
    changes: Vec<GitChange>,
    error: Option<String>,
)
    ensures
        ({
            let generation = app.render_generation;
            let after = after_result(app, WorkResult::GitScan { generation, changes, error });
            &&& after.git_state == GitState::Loaded
            &&& after.git_error == option_view(error)
            &&& error is None ==> after.git_changes.to_multiset() == views(changes@).to_multiset()
            &&& error is None ==> forall|i: int, j: int|
                0 <= i < j < after.git_changes.len() ==> state_place(
                    (#[trigger] after.git_changes[i]).state,
                ) <= state_place((#[trigger] after.git_changes[j]).state)
            &&& error is Some ==> after.git_changes == app.git_changes
            &&& after.files == app.files
            &&& after.changes == app.changes
            &&& after.tab == app.tab
        }),
{
    law_grouping_keeps_every_change(views(changes@));
    law_groups_stand_in_order(views(changes@), GitFileState::Staged);
}

/// Content that comes back is kept where it belongs: the lines of a diff among those
/// of its kind, those of a source among the sources with what is to be said of it, and
/// nothing else that has been read is touched.
pub proof fn law_content_is_kept_apart(
    app: AppView,
    index: usize,
    lines: Vec<DiffLine>,
    source: Vec<Vec<ColoredSpan>>,
    notice: Option<String>,
)
    ensures
        ({
            let generation = app.render_generation;
            let agent = after_result(app, WorkResult::Diff { generation, index, lines });
            let git = after_result(app, WorkResult::GitDiff { generation, index, lines });
            let file = after_result(
                app,
                WorkResult::Highlight { generation, index, lines: source, notice },
            );
            &&& agent == (AppView {
                diff_cache: agent.diff_cache,
                requested: agent.requested,
                ..app
            })
            &&& git == (AppView {
                git_diff_cache: git.git_diff_cache,
                requested: git.requested,
                ..app
            })
            &&& file == (AppView {
                source_cache: file.source_cache,
                source_notices: file.source_notices,
                requested: file.requested,
                ..app
            })
            &&& notice is None ==> file.source_notices == app.source_notices
            &&& !agent.requested.contains((Tab::Changes, index, generation))
            &&& !git.requested.contains((Tab::Changes, index, generation))
            &&& !file.requested.contains((Tab::Files, index, generation))
        }),
{
}

/// The viewer begins at the first item of both tabs, unfiltered and unscrolled, with the
/// sidebar shown and in focus, every folder open and nothing read, asked for or selected.
pub proof fn law_the_viewer_begins_at_the_first_item(
    manifest: Option<ManifestView>,
    capturing: bool,
    target: Seq<char>,
)
    ensures
        ({
            let app = app_start(manifest, capturing, target);
            let first = |state: TabView|
                state.selected == 0 && state.scroll_y == 0 && state.scroll_x == 0
                    && state.list_scroll_y == 0 && state.filter.len() == 0 && state.folder is None;
            &&& first(app.changes_state)
            &&& first(app.files_state)
            &&& app.well_formed()
            &&& app.focus == Focus::Navigation
            &&& app.changes_mode == ChangesMode::Agent
            &&& !app.sidebar_hidden
            &&& app.generation == 1
            &&& app.render_generation == 0
            &&& app.requested == Set::<Request>::empty()
            &&& app.collapsed_groups == Set::<Group>::empty()
            &&& app.selection is None
            &&& app.cursor is None
            &&& app.clipboard is None
            &&& app.scrollbar_drag is None
            &&& app.scan_error is None
            &&& app.git_error is None
            &&& app.git_state == GitState::Unloaded
            &&& app.files.len() == 0
            &&& app.changes.len() == 0
            &&& app.git_changes.len() == 0
            &&& forall|key: usize| cached(app.diff_cache, key) is None
            &&& forall|key: usize| cached(app.source_cache, key) is None
            &&& app.now_millis == 0
        }),
{
}

} // verus!

//! What the viewer asks the background for.
use vstd::prelude::*;

use crate::app::{
    after_result, line_bytes, next_generation, piece_bytes, source_bytes, App, AppView, ChangesMode,
    GitState, TabView,
};
use crate::cache::{cached, empty_cache, law_cache_gives_back, CACHE_LIMIT};
use crate::diff::{DiffLine, DiffLineView};
use crate::queue::{sent, takes, QueueView, Task, TaskQueue, TaskView, WorkResult};
use crate::seqs::{group_views, views};
use crate::sets::Tab;
use crate::source::ColoredSpan;

verus! {

/// Whether what is selected has been read already.
pub open spec fn has_content(app: AppView, selected: int) -> bool {
    match app.tab {
        Tab::Changes => match app.changes_mode {
            ChangesMode::Agent => cached(app.diff_cache, selected as usize) is Some,
            ChangesMode::Git => cached(app.git_diff_cache, selected as usize) is Some,
        },
        Tab::Files => cached(app.source_cache, selected as usize) is Some,
    }
}

/// The task that reads what is selected.
pub open spec fn task_for(app: AppView, selected: int, generation: u64) -> TaskView {
    match app.tab {
        Tab::Changes => match app.changes_mode {
            ChangesMode::Agent => TaskView::Diff {
                generation,
                index: selected as usize,
                change: app.changes[selected],
            },
            ChangesMode::Git => TaskView::GitDiff {
                generation,
                index: selected as usize,
                change: app.git_changes[selected],
            },
        },
        Tab::Files => TaskView::Highlight {
            generation,
            index: selected as usize,
            file: app.files[selected],
        },
    }
}

/// A new generation of what is shown, under which nothing has been asked for.
pub open spec fn new_render(app: AppView) -> AppView {
    AppView {
        render_generation: next_generation(app.render_generation),
        requested: Set::empty(),
        ..app
    }
}

/// The viewer and the queue once what is selected has been asked for, where that
/// is due: not while a scan is under way, not what is there or on its way, and
/// with the list of Git changes first.
pub open spec fn after_request(app: AppView, queue: QueueView) -> (AppView, QueueView) {
    if app.loading {
        (app, queue)
    } else if app.tab == Tab::Changes && app.changes_mode == ChangesMode::Git && app.git_state
        != GitState::Loaded {
        if app.git_state == GitState::Loading {
            (app, queue)
        } else {
            let next = new_render(app);
            if takes(queue) {
                (
                    AppView { git_state: GitState::Loading, ..next },
                    sent(queue, TaskView::GitScan { generation: next.render_generation }),
                )
            } else {
                (next, queue)
            }
        }
    } else {
        match app.selected_item() {
            None => (AppView { requested: Set::empty(), ..app }, queue),
            Some(selected) => if app.requested.contains(
                (app.tab, selected as usize, app.render_generation),
            ) || has_content(app, selected) {
                (app, queue)
            } else {
                let next = new_render(app);
                if takes(queue) {
                    (
                        AppView {
                            requested: Set::empty().insert(
                                (app.tab, selected as usize, next.render_generation),
                            ),
                            ..next
                        },
                        sent(queue, task_for(app, selected, next.render_generation)),
                    )
                } else {
                    (next, queue)
                }
            },
        }
    }
}

/// The viewer, the newest generation and the queue once a new scan has been asked
/// for: not while one is under way.
pub open spec fn after_refresh(app: AppView, newest: u64, queue: QueueView) -> (
    AppView,
    u64,
    QueueView,
) {
    let generation = next_generation(app.generation);
    if app.loading || !takes(queue) {
        (app, newest, queue)
    } else {
        (
            AppView {
                generation,
                loading: true,
                git_changes: Seq::empty(),
                git_diff_cache: empty_cache(),
                git_error: None,
                git_state: GitState::Unloaded,
                ..new_render(app)
            },
            generation,
            sent(queue, TaskView::Scan(generation)),
        )
    }
}

/// The other kind of changes, shown from the first on.
pub open spec fn mode_toggled(app: AppView) -> AppView {
    if app.tab != Tab::Changes {
        app
    } else {
        AppView {
            changes_mode: match app.changes_mode {
                ChangesMode::Agent => ChangesMode::Git,
                ChangesMode::Git => ChangesMode::Agent,
            },
            changes_state: TabView {
                selected: 0,
                scroll_y: 0,
                scroll_x: 0,
                folder: None,
                ..app.changes_state
            },
            ..new_render(app)
        }
    }
}

impl App {
    /// Asks for a new scan of the workspace, unless one is under way.
    pub fn refresh(&mut self, newest: &mut u64, tasks: &mut TaskQueue)
        requires
            old(self)@.well_formed(),
        ensures
            (final(self)@, *final(newest), final(tasks)@) == after_refresh(
                old(self)@,
                *old(newest),
                old(tasks)@,
            ),
            final(self)@.well_formed(),
    {
        broadcast use group_views;

        if self.loading {
            return;
        }
        let generation = self.generation.saturating_add(1);
        if tasks.try_send(Task::Scan(generation)) {
            self.generation = generation;
            *newest = generation;
            self.loading = true;
            self.render_generation = self.render_generation.saturating_add(1);
            self.requested.clear();
            self.git_changes.clear();
            self.git_diff_cache.clear();
            self.git_error = None;
            self.git_state = GitState::Unloaded;
        }
    }

    fn needs_task(&self, selected: usize) -> (needed: bool)
        ensures
            needed == !has_content(self@, selected as int),
    {
        match self.tab {
            Tab::Changes => match self.changes_mode {
                ChangesMode::Agent => self.diff_cache.get(&selected).is_none(),
                ChangesMode::Git => self.git_diff_cache.get(&selected).is_none(),
            },
            Tab::Files => self.source_cache.get(&selected).is_none(),
        }
    }

    fn task_for_selected(&self, selected: usize, generation: u64) -> (task: Task)
        requires
            selected < self@.item_count(),
        ensures
            task@ == task_for(self@, selected as int, generation),
    {
        match self.tab {
            Tab::Changes => match self.changes_mode {
                ChangesMode::Agent => Task::Diff {
                    generation,
                    index: selected,
                    change: self.changes[selected].clone(),
                },
                ChangesMode::Git => Task::GitDiff {
                    generation,
                    index: selected,
                    change: self.git_changes[selected].clone(),
                },
            },
            Tab::Files => Task::Highlight {
                generation,
                index: selected,
                file: self.files[selected].clone(),
            },
        }
    }

    fn request_git_scan(&mut self, tasks: &mut TaskQueue)
        requires
            old(self)@.well_formed(),
            !old(self)@.loading,
            old(self)@.tab == Tab::Changes,
            old(self)@.changes_mode == ChangesMode::Git,
            old(self)@.git_state == GitState::Unloaded,
        ensures
            (final(self)@, final(tasks)@) == after_request(old(self)@, old(tasks)@),
            final(self)@.well_formed(),
    {
        self.render_generation = self.render_generation.saturating_add(1);
        let generation = self.render_generation;
        self.requested.clear();
        if tasks.try_send(Task::GitScan { generation }) {
            self.git_state = GitState::Loading;
        }
    }

    /// Asks for what is selected, where that is due.
    pub fn request_selected(&mut self, tasks: &mut TaskQueue)
        requires
            old(self)@.well_formed(),
        ensures
            (final(self)@, final(tasks)@) == after_request(old(self)@, old(tasks)@),
            final(self)@.well_formed(),
    {
        if self.loading {
            return;
        }
        if self.tab == Tab::Changes && self.changes_mode == ChangesMode::Git && self.git_state
            != GitState::Loaded {
            if self.git_state == GitState::Loading {
                return;
            }
            self.request_git_scan(tasks);
            return;
        }
        let selected = match self.actual_selected() {
            None => {
                self.requested.clear();
                return;
            },
            Some(selected) => selected,
        };
        if self.requested.contains((self.tab, selected, self.render_generation)) {
            return;
        }
        if !self.needs_task(selected) {
            return;
        }
        self.render_generation = self.render_generation.saturating_add(1);
        let generation = self.render_generation;
        self.requested.clear();
        let task = self.task_for_selected(selected, generation);
        if tasks.try_send(task) {
            self.requested.insert((self.tab, selected, generation));
        }
    }

    /// Shows the other kind of changes, in the tab that shows changes.
    pub fn toggle_changes_mode(&mut self)
        requires
            old(self)@.well_formed(),
        ensures
            final(self)@ == mode_toggled(old(self)@),
            final(self)@.well_formed(),
    {
        if self.tab != Tab::Changes {
            return;
        }
        self.changes_mode = match self.changes_mode {
            ChangesMode::Agent => ChangesMode::Git,
            ChangesMode::Git => ChangesMode::Agent,
        };
        self.changes_state.selected = 0;
        self.changes_state.scroll_y = 0;
        self.changes_state.scroll_x = 0;
        self.changes_state.folder = None;
        self.render_generation = self.render_generation.saturating_add(1);
        self.requested.clear();
    }
}

/// While a scan is under way no other is asked for.
pub proof fn law_one_scan_at_a_time(app: AppView, newest: u64, queue: QueueView)
    requires
        app.loading,
    ensures
        after_refresh(app, newest, queue) == (app, newest, queue),
        after_request(app, queue) == (app, queue),
{
}

/// What has been asked for is not asked for again: once the queue has taken a
/// request, a second changes nothing.
pub proof fn law_requests_are_made_once(app: AppView, queue: QueueView)
    requires
        takes(queue),
    ensures
        ({
            let (asked, filled) = after_request(app, queue);
            after_request(asked, filled) == (asked, filled)
        }),
        after_request(app, queue).1.tasks.len() <= queue.tasks.len() + 1,
{
    let (asked, filled) = after_request(app, queue);
    assert(asked.filtered() == app.filtered());
    assert(asked.selected_item() == app.selected_item());
}

/// Nothing is asked for behind the end of the list.
pub proof fn law_requests_are_of_the_selected_item(app: AppView, queue: QueueView)
    requires
        app.selected_item() is None,
        app.tab == Tab::Files || app.changes_mode == ChangesMode::Agent || app.git_state
            == GitState::Loaded,
    ensures
        after_request(app, queue).1 == queue,
{
}

/// What was asked for before a new scan is of no use after it: results of an
/// earlier generation change nothing once the scan has been asked for.
pub proof fn law_refreshing_drops_what_was_asked(
    app: AppView,
    newest: u64,
    queue: QueueView,
    result: WorkResult,
)
    requires
        !app.loading,
        takes(queue),
        app.generation < u64::MAX,
        app.render_generation < u64::MAX,
        result_generation(result) <= (if result is Scan {
            app.generation
        } else {
            app.render_generation
        }),
    ensures
        ({
            let scanning = after_refresh(app, newest, queue).0;
            after_result(scanning, result) == scanning
        }),
{
}

/// The generation that a result belongs to.
pub open spec fn result_generation(result: WorkResult) -> u64 {
    match result {
        WorkResult::Scan(scan) => scan.generation,
        WorkResult::Diff { generation, .. } => generation,
        WorkResult::Highlight { generation, .. } => generation,
        WorkResult::GitScan { generation, .. } => generation,
        WorkResult::GitDiff { generation, .. } => generation,
    }
}

/// Switching twice between the two kinds of changes comes back to the first.
pub proof fn law_switching_twice_restores(app: AppView)
    ensures
        mode_toggled(mode_toggled(app)).changes_mode == app.changes_mode,
        mode_toggled(mode_toggled(app)).tab == app.tab,
        app.tab == Tab::Files ==> mode_toggled(app) == app,
{
}

/// What is selected is asked for and shown: the task that goes out names the
/// selected item, and the lines that come back for it are those that are kept for
/// it, unless they are more than a cache holds.
pub proof fn law_answers_are_shown(
    app: AppView,
    queue: QueueView,
    lines: Vec<DiffLine>,
    source: Vec<Vec<ColoredSpan>>,
)
    requires
        app.well_formed(),
        !app.loading,
        takes(queue),
        app.selected_item() is Some,
        app.tab == Tab::Changes && app.changes_mode == ChangesMode::Git ==> app.git_state
            == GitState::Loaded,
        !app.requested.contains(
            (app.tab, app.selected_item()->0 as usize, app.render_generation),
        ),
        !has_content(app, app.selected_item()->0),
        line_bytes(views(lines@), lines@.len() as int) <= CACHE_LIMIT,
        source_bytes(source@, source@.len() as int) <= CACHE_LIMIT,
    ensures
        ({
            let selected = app.selected_item()->0;
            let (asked, filled) = after_request(app, queue);
            let generation = asked.render_generation;
            let index = selected as usize;
            &&& filled.tasks == queue.tasks.push(task_for(app, selected, generation))
            &&& match app.tab {
                Tab::Files => cached(
                    after_result(
                        asked,
                        WorkResult::Highlight { generation, index, lines: source, notice: None },
                    ).source_cache,
                    index,
                ) == Some(source),
                Tab::Changes => match app.changes_mode {
                    ChangesMode::Agent => cached(
                        after_result(
                            asked,
                            WorkResult::Diff { generation, index, lines },
                        ).diff_cache,
                        index,
                    ) == Some(lines),
                    ChangesMode::Git => cached(
                        after_result(
                            asked,
                            WorkResult::GitDiff { generation, index, lines },
                        ).git_diff_cache,
                        index,
                    ) == Some(lines),
                },
            }
        }),
{
    let index = app.selected_item()->0 as usize;
    lemma_bytes_count(views(lines@), source@);
    let small = line_bytes(views(lines@), lines@.len() as int) as usize;
    law_cache_gives_back(app.diff_cache, index, lines, small, index);
    law_cache_gives_back(app.git_diff_cache, index, lines, small, index);
    law_cache_gives_back(
        app.source_cache,
        index,
        source,
        source_bytes(source@, source@.len() as int) as usize,
        index,
    );
}

proof fn lemma_bytes_count(lines: Seq<DiffLineView>, source: Seq<Vec<ColoredSpan>>)
    ensures
        line_bytes(lines, lines.len() as int) >= 0,
        source_bytes(source, source.len() as int) >= 0,
{
    lemma_line_bytes(lines, lines.len() as int);
    lemma_source_bytes(source, source.len() as int);
}

proof fn lemma_line_bytes(lines: Seq<DiffLineView>, count: int)
    ensures
        line_bytes(lines, count) >= 0,
    decreases count,
{
    if count > 0 {
        lemma_line_bytes(lines, count - 1);
    }
}

proof fn lemma_piece_bytes(pieces: Seq<ColoredSpan>, count: int)
    ensures
        piece_bytes(pieces, count) >= 0,
    decreases count,
{
    if count > 0 {
        lemma_piece_bytes(pieces, count - 1);
    }
}

proof fn lemma_source_bytes(lines: Seq<Vec<ColoredSpan>>, count: int)
    ensures
        source_bytes(lines, count) >= 0,
    decreases count,
{
    if count > 0 {
        lemma_source_bytes(lines, count - 1);
        lemma_piece_bytes(lines[count - 1]@, lines[count - 1]@.len() as int);
    }
}

/// What goes out asks for what is selected: a change by itself, with the place that it
/// has in the list, and a file likewise.
pub proof fn law_what_is_selected_is_asked_for(app: AppView, queue: QueueView)
    requires
        !app.loading,
        takes(queue),
        app.render_generation < u64::MAX,
        app.selected_item() is Some,
        !has_content(app, app.selected_item()->0),
        !app.requested.contains(
            (app.tab, app.selected_item()->0 as usize, app.render_generation),
        ),
        0 <= app.selected_item()->0 <= usize::MAX,
        app.tab == Tab::Changes && app.changes_mode == ChangesMode::Git ==> app.git_state
            == GitState::Loaded,
    ensures
        ({
            let item = app.selected_item()->0;
            let (asked, filled) = after_request(app, queue);
            let task = filled.tasks.last();
            &&& filled.tasks.len() == queue.tasks.len() + 1
            &&& filled.tasks.drop_last() == queue.tasks
            &&& asked.render_generation == app.render_generation + 1
            &&& app.tab == Tab::Files ==> (task matches TaskView::Highlight {
                generation,
                index,
                file,
            } && generation == asked.render_generation && index == item && file
                == app.files[item])
            &&& app.tab == Tab::Changes && app.changes_mode == ChangesMode::Agent ==> (
            task matches TaskView::Diff { generation, index, change } && generation
                == asked.render_generation && index == item && change == app.changes[item])
            &&& app.tab == Tab::Changes && app.changes_mode == ChangesMode::Git ==> (
            task matches TaskView::GitDiff {
                generation,
                index,
                change,
            } && generation == asked.render_generation && index == item && change
                == app.git_changes[item])
        }),
{
    let filled = after_request(app, queue).1;
    assert(filled.tasks.drop_last() =~= queue.tasks);
}

/// The list of Git's changes is asked for once it is to be shown, before any of them,
/// and only once.
pub proof fn law_the_list_of_git_is_asked_for_first(app: AppView, queue: QueueView)
    requires
        !app.loading,
        takes(queue),
        app.tab == Tab::Changes,
        app.changes_mode == ChangesMode::Git,
        app.git_state != GitState::Loaded,
    ensures
        ({
            let (asked, filled) = after_request(app, queue);
            &&& asked.git_state == GitState::Loading
            &&& app.git_state == GitState::Loading ==> filled == queue
            &&& app.git_state == GitState::Unloaded ==> filled.tasks == queue.tasks.push(
                TaskView::GitScan { generation: asked.render_generation },
            )
        }),
{
}

/// A new scan is asked for under a number of its own, which is the newest from then on
/// and the only one that is waited for; what was read of the files stays until it is
/// there.
pub proof fn law_a_refresh_asks_for_a_scan(app: AppView, newest: u64, queue: QueueView)
    requires
        !app.loading,
        takes(queue),
        app.generation < u64::MAX,
    ensures
        ({
            let (next, generation, filled) = after_refresh(app, newest, queue);
            &&& generation == app.generation + 1
            &&& next.generation == generation
            &&& next.loading
            &&& filled.tasks == queue.tasks.push(TaskView::Scan(generation))
            &&& next.files == app.files
            &&& next.changes == app.changes
            &&& next.notices == app.notices
            &&& next.active() == app.active()
        }),
{
}

} // verus!

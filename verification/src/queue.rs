//! Work handed to the background, and what comes back from it.
use std::collections::VecDeque;
use vstd::prelude::*;

use crate::diff::{plain_line, DiffLine, DiffLineKind, DiffLineView};
use crate::error::{error_text, Error};
use crate::git::{GitChange, GitChangeView};
use crate::model::{Change, ChangeView, CurrentFile, FileView, Manifest, ManifestView};
use crate::seqs::{group_views, option_view, views};
use crate::source::ColoredSpan;

verus! {

/// A piece of work for the background.
#[derive(Debug)]
#[allow(inconsistent_fields)]
pub enum Task {
    Scan(u64),
    Diff { generation: u64, index: usize, change: Change },
    Highlight { generation: u64, index: usize, file: CurrentFile },
    GitScan { generation: u64 },
    GitDiff { generation: u64, index: usize, change: GitChange },
}

#[allow(inconsistent_fields)]
pub ghost enum TaskView {
    Scan(u64),
    Diff { generation: u64, index: usize, change: ChangeView },
    Highlight { generation: u64, index: usize, file: FileView },
    GitScan { generation: u64 },
    GitDiff { generation: u64, index: usize, change: GitChangeView },
}

impl View for Task {
    type V = TaskView;

    open spec fn view(&self) -> TaskView {
        match self {
            Task::Scan(generation) => TaskView::Scan(*generation),
            Task::Diff { generation, index, change } => TaskView::Diff {
                generation: *generation,
                index: *index,
                change: change@,
            },
            Task::Highlight { generation, index, file } => TaskView::Highlight {
                generation: *generation,
                index: *index,
                file: file@,
            },
            Task::GitScan { generation } => TaskView::GitScan { generation: *generation },
            Task::GitDiff { generation, index, change } => TaskView::GitDiff {
                generation: *generation,
                index: *index,
                change: change@,
            },
        }
    }
}

/// Tasks that wait for the background, oldest first, up to a number.
#[derive(Debug)]
pub struct TaskQueue {
    tasks: VecDeque<Task>,
    capacity: usize,
    open: bool,
}

pub ghost struct QueueView {
    pub tasks: Seq<TaskView>,
    pub capacity: int,
    pub open: bool,
}

impl View for TaskQueue {
    type V = QueueView;

    closed spec fn view(&self) -> QueueView {
        QueueView {
            tasks: views(self.tasks@),
            capacity: self.capacity as int,
            open: self.open,
        }
    }
}

/// Whether the queue takes another task.
pub open spec fn takes(queue: QueueView) -> bool {
    queue.open && queue.tasks.len() < queue.capacity
}

/// The queue with the task at its end, where it takes another.
pub open spec fn sent(queue: QueueView, task: TaskView) -> QueueView {
    if takes(queue) {
        QueueView { tasks: queue.tasks.push(task), ..queue }
    } else {
        queue
    }
}

impl TaskQueue {
    /// A queue with room for so many tasks.
    pub fn new(capacity: usize) -> (queue: TaskQueue)
        ensures
            queue@ == (QueueView { tasks: Seq::empty(), capacity: capacity as int, open: true }),
    {
        broadcast use group_views;

        TaskQueue { tasks: VecDeque::new(), capacity, open: true }
    }

    /// Takes no more tasks.
    pub fn close(&mut self)
        ensures
            final(self)@ == (QueueView { open: false, ..old(self)@ }),
    {
        self.open = false;
    }

    /// Puts a task at the end; `false` where there is no room or the queue is
    /// closed.
    pub fn try_send(&mut self, task: Task) -> (accepted: bool)
        ensures
            accepted == takes(old(self)@),
            final(self)@ == sent(old(self)@, task@),
    {
        broadcast use group_views;

        if self.open && self.tasks.len() < self.capacity {
            self.tasks.push_back(task);
            true
        } else {
            false
        }
    }

    /// Takes the oldest task.
    pub fn try_recv(&mut self) -> (task: Option<Task>)
        ensures
            old(self)@.tasks.len() == 0 ==> task is None && final(self)@ == old(self)@,
            old(self)@.tasks.len() > 0 ==> option_view(task) == Some(old(self)@.tasks[0])
                && final(self)@ == (QueueView { tasks: old(self)@.tasks.skip(1), ..old(self)@ }),
    {
        let ghost before = self.tasks@;
        let task = self.tasks.pop_front();
        proof {
            if before.len() > 0 {
                assert(views(self.tasks@) =~= views(before).skip(1));
            }
        }
        task
    }
}

/// What a scan of the workspace found.
#[derive(Debug)]
pub struct ScanResult {
    pub generation: u64,
    pub baseline: Option<Manifest>,
    pub capturing: bool,
    pub files: Vec<CurrentFile>,
    pub changes: Vec<Change>,
    pub notices: Vec<String>,
    pub error: Option<String>,
}

pub ghost struct ScanResultView {
    pub generation: u64,
    pub baseline: Option<ManifestView>,
    pub capturing: bool,
    pub files: Seq<FileView>,
    pub changes: Seq<ChangeView>,
    pub notices: Seq<Seq<char>>,
    pub error: Option<Seq<char>>,
}

impl View for ScanResult {
    type V = ScanResultView;

    open spec fn view(&self) -> ScanResultView {
        ScanResultView {
            generation: self.generation,
            baseline: option_view(self.baseline),
            capturing: self.capturing,
            files: views(self.files@),
            changes: views(self.changes@),
            notices: views(self.notices@),
            error: option_view(self.error),
        }
    }
}

/// What came of a task.
#[derive(Debug)]
#[allow(inconsistent_fields)]
pub enum WorkResult {
    Scan(Box<ScanResult>),
    Diff { generation: u64, index: usize, lines: Vec<DiffLine> },
    Highlight {
        generation: u64,
        index: usize,
        lines: Vec<Vec<ColoredSpan>>,
        notice: Option<String>,
    },
    GitScan { generation: u64, changes: Vec<GitChange>, error: Option<String> },
    GitDiff { generation: u64, index: usize, lines: Vec<DiffLine> },
}

/// Whether a scan has been overtaken by a newer one, so that its result is of no
/// use.
pub fn overtaken(newest: u64, generation: u64) -> (stale: bool)
    ensures
        stale == (newest != generation),
{
    newest != generation
}

/// What a scan found, as it is handed back: all of it, or why it failed.
pub fn scan_result(
    generation: u64,
    baseline: Option<Manifest>,
    capturing: bool,
    outcome: Result<(Vec<CurrentFile>, Vec<Change>, Vec<String>), Error>,
) -> (result: ScanResult)
    ensures
        result@ == (match outcome {
            Ok((files, changes, notices)) => ScanResultView {
                generation,
                baseline: option_view(baseline),
                capturing,
                files: views(files@),
                changes: views(changes@),
                notices: views(notices@),
                error: None,
            },
            Err(error) => ScanResultView {
                generation,
                baseline: option_view(baseline),
                capturing,
                files: Seq::empty(),
                changes: Seq::empty(),
                notices: Seq::empty(),
                error: Some(error_text(error@)),
            },
        }),
{
    broadcast use group_views;

    match outcome {
        Ok((files, changes, notices)) => ScanResult {
            generation,
            baseline,
            capturing,
            files,
            changes,
            notices,
            error: None,
        },
        Err(error) => ScanResult {
            generation,
            baseline,
            capturing,
            files: Vec::new(),
            changes: Vec::new(),
            notices: Vec::new(),
            error: Some(error.text().to_owned()),
        },
    }
}

/// What a Git scan found, as it is handed back.
pub fn git_scan_result(generation: u64, outcome: Result<Vec<GitChange>, String>) -> (result:
    WorkResult)
    ensures
        result matches WorkResult::GitScan { generation: g, changes, error } && g == generation && (
        match outcome {
            Ok(found) => changes == found && error is None,
            Err(message) => changes@.len() == 0 && error == Some(message),
        }),
{
    match outcome {
        Ok(changes) => WorkResult::GitScan { generation, changes, error: None },
        Err(message) => WorkResult::GitScan {
            generation,
            changes: Vec::new(),
            error: Some(message),
        },
    }
}

/// What a Git diff shows: its lines, or a notice of what went wrong.
pub open spec fn git_diff_lines(outcome: Result<Seq<DiffLineView>, Seq<char>>) -> Seq<
    DiffLineView,
> {
    match outcome {
        Ok(lines) => lines,
        Err(message) => seq![plain_line(DiffLineKind::Notice, message)],
    }
}

/// What a Git diff shows, as it is handed back.
pub fn git_diff_result(
    generation: u64,
    index: usize,
    outcome: Result<Vec<DiffLine>, String>,
) -> (result: WorkResult)
    ensures
        result matches WorkResult::GitDiff { generation: g, index: i, lines } && g == generation
            && i == index && views(lines@) == git_diff_lines(
            match outcome {
                Ok(found) => Ok(views(found@)),
                Err(message) => Err(message@),
            },
        ),
{
    broadcast use group_views;

    match outcome {
        Ok(lines) => WorkResult::GitDiff { generation, index, lines },
        Err(message) => {
            let mut lines: Vec<DiffLine> = Vec::new();
            lines.push(DiffLine::new(DiffLineKind::Notice, message));
            WorkResult::GitDiff { generation, index, lines }
        },
    }
}

/// A task stands behind those that wait already, and none is lost or doubled; a queue
/// that is full or closed stays as it is.
pub proof fn law_tasks_stand_in_line(queue: QueueView, task: TaskView, k: int)
    ensures
        takes(queue) <==> queue.open && queue.tasks.len() < queue.capacity,
        takes(queue) ==> sent(queue, task).tasks.len() == queue.tasks.len() + 1 && sent(
            queue,
            task,
        ).tasks.last() == task,
        takes(queue) && 0 <= k < queue.tasks.len() ==> sent(queue, task).tasks[k]
            == queue.tasks[k],
        !takes(queue) ==> sent(queue, task) == queue,
        sent(queue, task).capacity == queue.capacity,
        sent(queue, task).open == queue.open,
{
}

/// What Git could not show is told of in one line, and what it could is shown as it is.
pub proof fn law_a_diff_that_failed_is_told_of(lines: Seq<DiffLineView>, message: Seq<char>)
    ensures
        git_diff_lines(Ok(lines)) == lines,
        ({
            let told = git_diff_lines(Err(message));
            &&& told.len() == 1
            &&& told[0].text == message
            &&& told[0].kind == DiffLineKind::Notice
            &&& told[0].old_line is None
            &&& told[0].new_line is None
        }),
{
}

} // verus!

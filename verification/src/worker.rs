//! The background: what a task needs next, and what comes of it.
use vstd::prelude::*;
use vstd::utf8::{decode_utf8, valid_utf8};

use crate::diff::{change_lines, render_change, DiffLineView};
use crate::error::{error_text, Error, ErrorView};
use crate::git::{
    diff, diff_step, no_runs, scan, scan_step, DiffStep, DiffStepView, GitChange, GitChangeView,
    GitComparison, GitQuestion, GitRun, GitRunView, GitRuns, GitRunsView, ScanStep, ScanStepView,
};
use crate::model::{
    copy_path, Change, ChangeKind, ChangeView, CurrentFile, FileView, Manifest, ManifestView,
    TextEligibility, INLINE_TEXT_LIMIT,
};
use crate::project::{ProjectScope, ScopeView};
use crate::queue::{
    git_diff_lines, git_diff_result, git_scan_result, overtaken, scan_result, ScanResultView, Task,
    TaskView, WorkResult,
};
use crate::seqs::{group_views, option_view, views};
use crate::source::{
    highlight_file, highlight_step, plain_source, preview_source, read_view, source_views,
    HighlightStep, HighlightStepView, SourceLines,
};
use crate::text::utf8_text;

verus! {

/// What came of a task, by its contents.
#[allow(inconsistent_fields)]
pub ghost enum WorkResultView {
    Scan(ScanResultView),
    Diff { generation: u64, index: usize, lines: Seq<DiffLineView> },
    Highlight {
        generation: u64,
        index: usize,
        lines: SourceLines,
        notice: Option<Seq<char>>,
    },
    GitScan { generation: u64, changes: Seq<GitChangeView>, error: Option<Seq<char>> },
    GitDiff { generation: u64, index: usize, lines: Seq<DiffLineView> },
}

impl View for WorkResult {
    type V = WorkResultView;

    open spec fn view(&self) -> WorkResultView {
        match self {
            WorkResult::Scan(result) => WorkResultView::Scan(result@),
            WorkResult::Diff { generation, index, lines } => WorkResultView::Diff {
                generation: *generation,
                index: *index,
                lines: views(lines@),
            },
            WorkResult::Highlight { generation, index, lines, notice } => {
                WorkResultView::Highlight {
                    generation: *generation,
                    index: *index,
                    lines: source_views(lines@),
                    notice: option_view(*notice),
                }
            },
            WorkResult::GitScan { generation, changes, error } => WorkResultView::GitScan {
                generation: *generation,
                changes: views(changes@),
                error: option_view(*error),
            },
            WorkResult::GitDiff { generation, index, lines } => WorkResultView::GitDiff {
                generation: *generation,
                index: *index,
                lines: views(lines@),
            },
        }
    }
}

/// The files of a workspace, its changes since the baseline, and what went wrong
/// on the way.
pub type Scanned = (Vec<CurrentFile>, Vec<Change>, Vec<String>);

/// What has been found out for a task so far; what has not is `None`.
#[derive(Debug)]
pub struct Findings {
    /// The baseline of the pane, where one was loaded.
    pub baseline: Option<Result<Option<Manifest>, Error>>,
    /// Whether a baseline is being captured.
    pub capturing: Option<bool>,
    pub scanned: Option<Result<Scanned, Error>>,
    /// The recorded bytes of a change.
    pub blob: Option<Result<Vec<u8>, Error>>,
    /// The present bytes of a file.
    pub content: Option<Result<Vec<u8>, Error>>,
    /// The name of the syntax of a file.
    pub syntax: Option<String>,
    /// Whether a file has been shown without colors.
    pub previewed: bool,
    /// The project view that holds for the workspace, where there is one.
    pub scope: Option<Option<ProjectScope>>,
    pub runs: GitRuns,
    /// What Git said when asked to show a change.
    pub shown: Option<GitRun>,
}

pub ghost struct FindingsView {
    pub baseline: Option<Result<Option<ManifestView>, ErrorView>>,
    pub capturing: Option<bool>,
    pub scanned: Option<Result<(Seq<FileView>, Seq<ChangeView>, Seq<Seq<char>>), ErrorView>>,
    pub blob: Option<Result<Seq<u8>, ErrorView>>,
    pub content: Option<Result<Seq<u8>, ErrorView>>,
    pub syntax: Option<Seq<char>>,
    pub previewed: bool,
    pub scope: Option<Option<ScopeView>>,
    pub runs: GitRunsView,
    pub shown: Option<GitRunView>,
}

impl View for Findings {
    type V = FindingsView;

    open spec fn view(&self) -> FindingsView {
        FindingsView {
            baseline: match self.baseline {
                Some(Ok(manifest)) => Some(Ok(option_view(manifest))),
                Some(Err(error)) => Some(Err(error@)),
                None => None,
            },
            capturing: self.capturing,
            scanned: match self.scanned {
                Some(Ok((files, changes, notices))) => Some(
                    Ok((views(files@), views(changes@), views(notices@))),
                ),
                Some(Err(error)) => Some(Err(error@)),
                None => None,
            },
            blob: read_view(self.blob),
            content: read_view(self.content),
            syntax: option_view(self.syntax),
            previewed: self.previewed,
            scope: match self.scope {
                Some(scope) => Some(option_view(scope)),
                None => None,
            },
            runs: self.runs@,
            shown: option_view(self.shown),
        }
    }
}

/// Nothing found out yet.
pub open spec fn nothing_found() -> FindingsView {
    FindingsView {
        baseline: None,
        capturing: None,
        scanned: None,
        blob: None,
        content: None,
        syntax: None,
        previewed: false,
        scope: None,
        runs: no_runs(),
        shown: None,
    }
}

/// What a task needs next, or what came of it.
#[derive(Debug)]
pub enum WorkStep {
    /// Load the baseline of the pane.
    LoadBaseline,
    /// See whether a baseline is being captured.
    LookForCapture,
    /// Scan the workspace.
    ScanFiles,
    /// Read a blob.
    ReadBlob(String),
    /// Read at most so many bytes of a file of the workspace.
    ReadFile(Vec<u8>, u64),
    /// Show the file without colors meanwhile.
    Preview(WorkResult),
    /// Find the name of the file's syntax.
    FindSyntax,
    /// Find the project view.
    FindScope,
    /// Ask Git.
    AskGit(GitQuestion),
    /// Have Git show a change.
    ShowChange(Vec<Vec<u8>>),
    /// What came of the task; `None` where that is of no use any more.
    Finished(Option<WorkResult>),
}

pub ghost enum WorkStepView {
    LoadBaseline,
    LookForCapture,
    ScanFiles,
    ReadBlob(Seq<char>),
    ReadFile(Seq<u8>, u64),
    Preview(WorkResultView),
    FindSyntax,
    FindScope,
    AskGit(GitQuestion),
    ShowChange(Seq<Seq<u8>>),
    Finished(Option<WorkResultView>),
}

impl View for WorkStep {
    type V = WorkStepView;

    open spec fn view(&self) -> WorkStepView {
        match self {
            WorkStep::LoadBaseline => WorkStepView::LoadBaseline,
            WorkStep::LookForCapture => WorkStepView::LookForCapture,
            WorkStep::ScanFiles => WorkStepView::ScanFiles,
            WorkStep::ReadBlob(hash) => WorkStepView::ReadBlob(hash@),
            WorkStep::ReadFile(path, limit) => WorkStepView::ReadFile(path@, *limit),
            WorkStep::Preview(result) => WorkStepView::Preview(result@),
            WorkStep::FindSyntax => WorkStepView::FindSyntax,
            WorkStep::FindScope => WorkStepView::FindScope,
            WorkStep::AskGit(question) => WorkStepView::AskGit(*question),
            WorkStep::ShowChange(arguments) => WorkStepView::ShowChange(views(arguments@)),
            WorkStep::Finished(result) => WorkStepView::Finished(option_view(*result)),
        }
    }
}

pub open spec fn ok<T>(result: Option<Result<T, ErrorView>>) -> Option<T> {
    match result {
        Some(Ok(value)) => Some(value),
        _ => None,
    }
}

/// A scan: of use only while none newer has been asked for. A baseline that cannot
/// be loaded is none.
pub open spec fn scan_work(generation: u64, newest: u64, found: FindingsView) -> WorkStepView {
    if newest != generation {
        WorkStepView::Finished(None)
    } else if found.baseline is None {
        WorkStepView::LoadBaseline
    } else {
        let baseline = match ok(found.baseline) {
            Some(manifest) => manifest,
            None => None,
        };
        match found.capturing {
            None => WorkStepView::LookForCapture,
            Some(capturing) => match found.scanned {
                None => WorkStepView::ScanFiles,
                Some(Ok((files, changes, notices))) => WorkStepView::Finished(
                    Some(
                        WorkResultView::Scan(
                            ScanResultView {
                                generation,
                                baseline,
                                capturing,
                                files,
                                changes,
                                notices,
                                error: None,
                            },
                        ),
                    ),
                ),
                Some(Err(error)) => WorkStepView::Finished(
                    Some(
                        WorkResultView::Scan(
                            ScanResultView {
                                generation,
                                baseline,
                                capturing,
                                files: Seq::empty(),
                                changes: Seq::empty(),
                                notices: Seq::empty(),
                                error: Some(error_text(error)),
                            },
                        ),
                    ),
                ),
            },
        }
    }
}

/// The blob that holds the recorded text of a change; a rename needs none.
pub open spec fn wanted_blob(change: ChangeView) -> Option<Seq<char>> {
    if change.kind == ChangeKind::Renamed {
        None
    } else {
        match change.baseline {
            Some(record) => record.blob,
            None => None,
        }
    }
}

/// The file that holds the present text of a change; a rename needs none.
pub open spec fn wanted_file(change: ChangeView) -> Option<Seq<u8>> {
    if change.kind == ChangeKind::Renamed {
        None
    } else {
        match change.current {
            Some(file) => if file.text == TextEligibility::Text {
                Some(file.relative)
            } else {
                None
            },
            None => None,
        }
    }
}

/// The diff of a change since the baseline.
pub open spec fn diff_work(
    generation: u64,
    index: usize,
    change: ChangeView,
    found: FindingsView,
) -> WorkStepView {
    if wanted_blob(change) is Some && found.blob is None {
        WorkStepView::ReadBlob(wanted_blob(change)->0)
    } else if wanted_file(change) is Some && found.content is None {
        WorkStepView::ReadFile(wanted_file(change)->0, INLINE_TEXT_LIMIT)
    } else {
        WorkStepView::Finished(
            Some(
                WorkResultView::Diff {
                    generation,
                    index,
                    lines: change_lines(change, ok(found.blob), ok(found.content)),
                },
            ),
        )
    }
}

/// A source, shown without colors before it is highlighted.
pub open spec fn highlight_work(
    generation: u64,
    index: usize,
    file: FileView,
    true_color: bool,
    found: FindingsView,
) -> WorkStepView {
    match highlight_step(file, found.content, found.syntax, true_color) {
        HighlightStepView::Read => WorkStepView::ReadFile(file.relative, INLINE_TEXT_LIMIT),
        HighlightStepView::FindSyntax => if found.previewed {
            WorkStepView::FindSyntax
        } else {
            WorkStepView::Preview(
                WorkResultView::Highlight {
                    generation,
                    index,
                    lines: plain_source(decode_utf8(found.content->0->Ok_0)),
                    notice: None,
                },
            )
        },
        HighlightStepView::Finished(lines, notice) => WorkStepView::Finished(
            Some(WorkResultView::Highlight { generation, index, lines, notice }),
        ),
    }
}

/// A scan of the working tree with Git.
pub open spec fn git_scan_work(generation: u64, root: Seq<u8>, found: FindingsView)
    -> WorkStepView {
    match found.scope {
        None => WorkStepView::FindScope,
        Some(scope) => match scan_step(GitComparison::WorkingTree, found.runs, scope, root) {
            ScanStepView::Ask(question) => WorkStepView::AskGit(question),
            ScanStepView::Finished(Ok(changes)) => WorkStepView::Finished(
                Some(WorkResultView::GitScan { generation, changes, error: None }),
            ),
            ScanStepView::Finished(Err(message)) => WorkStepView::Finished(
                Some(
                    WorkResultView::GitScan {
                        generation,
                        changes: Seq::empty(),
                        error: Some(message),
                    },
                ),
            ),
        },
    }
}

/// The diff of a change that Git knows of.
pub open spec fn git_diff_work(
    generation: u64,
    index: usize,
    change: GitChangeView,
    root: Seq<u8>,
    found: FindingsView,
) -> WorkStepView {
    match diff_step(root, change, found.shown) {
        DiffStepView::Run(arguments) => WorkStepView::ShowChange(arguments),
        DiffStepView::Finished(outcome) => WorkStepView::Finished(
            Some(
                WorkResultView::GitDiff { generation, index, lines: git_diff_lines(outcome) },
            ),
        ),
    }
}

/// What a task needs next, or what came of it, given the newest scan that has been
/// asked for and whether the terminal shows all colors.
pub open spec fn work_step(
    task: TaskView,
    root: Seq<u8>,
    newest: u64,
    true_color: bool,
    found: FindingsView,
) -> WorkStepView {
    match task {
        TaskView::Scan(generation) => scan_work(generation, newest, found),
        TaskView::Diff { generation, index, change } => diff_work(
            generation,
            index,
            change,
            found,
        ),
        TaskView::Highlight { generation, index, file } => highlight_work(
            generation,
            index,
            file,
            true_color,
            found,
        ),
        TaskView::GitScan { generation } => git_scan_work(generation, root, found),
        TaskView::GitDiff { generation, index, change } => git_diff_work(
            generation,
            index,
            change,
            root,
            found,
        ),
    }
}

fn taken(read: Option<Result<Vec<u8>, Error>>) -> (bytes: Option<Vec<u8>>)
    ensures
        option_view(bytes) == ok(read_view(read)),
{
    match read {
        Some(Ok(bytes)) => Some(bytes),
        _ => None,
    }
}

fn blob_of(change: &Change) -> (hash: Option<String>)
    ensures
        option_view(hash) == wanted_blob(change@),
{
    if change.kind == ChangeKind::Renamed {
        return None;
    }
    match &change.baseline {
        Some(record) => match &record.blob {
            Some(hash) => Some(hash.clone()),
            None => None,
        },
        None => None,
    }
}

fn file_of(change: &Change) -> (path: Option<Vec<u8>>)
    ensures
        option_view(path) == wanted_file(change@),
{
    if change.kind == ChangeKind::Renamed {
        return None;
    }
    match &change.current {
        Some(file) => {
            if file.text == TextEligibility::Text {
                Some(copy_path(&file.relative))
            } else {
                None
            }
        },
        None => None,
    }
}

impl Findings {
    /// Nothing found out yet.
    pub fn new() -> (found: Findings)
        ensures
            found@ == nothing_found(),
    {
        Findings {
            baseline: None,
            capturing: None,
            scanned: None,
            blob: None,
            content: None,
            syntax: None,
            previewed: false,
            scope: None,
            runs: GitRuns::new(),
            shown: None,
        }
    }

    fn scan_step(&mut self, generation: u64, newest: u64) -> (step: WorkStep)
        ensures
            step@ == scan_work(generation, newest, old(self)@),
            step !is Finished ==> final(self)@ == old(self)@,
    {
        if overtaken(newest, generation) {
            return WorkStep::Finished(None);
        }
        if self.baseline.is_none() {
            return WorkStep::LoadBaseline;
        }
        let capturing = match self.capturing {
            None => {
                return WorkStep::LookForCapture;
            },
            Some(capturing) => capturing,
        };
        if self.scanned.is_none() {
            return WorkStep::ScanFiles;
        }
        let baseline = match self.baseline.take() {
            Some(Ok(manifest)) => manifest,
            _ => None,
        };
        match self.scanned.take() {
            None => WorkStep::ScanFiles,
            Some(outcome) => WorkStep::Finished(
                Some(
                    WorkResult::Scan(
                        Box::new(scan_result(generation, baseline, capturing, outcome)),
                    ),
                ),
            ),
        }
    }

    fn diff_step(&mut self, generation: u64, index: usize, change: &Change) -> (step: WorkStep)
        ensures
            step@ == diff_work(generation, index, change@, old(self)@),
            step !is Finished ==> final(self)@ == old(self)@,
    {
        if self.blob.is_none() {
            if let Some(hash) = blob_of(change) {
                return WorkStep::ReadBlob(hash);
            }
        }
        if self.content.is_none() {
            if let Some(path) = file_of(change) {
                return WorkStep::ReadFile(path, INLINE_TEXT_LIMIT);
            }
        }
        let blob = taken(self.blob.take());
        let content = taken(self.content.take());
        let lines = render_change(change, blob, content);
        WorkStep::Finished(Some(WorkResult::Diff { generation, index, lines }))
    }

    fn preview(&self, generation: u64, index: usize) -> (step: WorkStep)
        requires
            self@.content matches Some(Ok(bytes)) && valid_utf8(bytes),
        ensures
            step@ == WorkStepView::Preview(
                WorkResultView::Highlight {
                    generation,
                    index,
                    lines: plain_source(decode_utf8(self@.content->0->Ok_0)),
                    notice: None,
                },
            ),
    {
        let lines = match &self.content {
            Some(Ok(bytes)) => match utf8_text(bytes) {
                Some(text) => preview_source(text.as_str()),
                None => Vec::new(),
            },
            _ => Vec::new(),
        };
        WorkStep::Preview(WorkResult::Highlight { generation, index, lines, notice: None })
    }

    fn highlight_step(
        &mut self,
        generation: u64,
        index: usize,
        file: &CurrentFile,
        true_color: bool,
    ) -> (step: WorkStep)
        ensures
            step@ == highlight_work(generation, index, file@, true_color, old(self)@),
            step !is Finished ==> final(self)@ == old(self)@,
    {
        match highlight_file(file, &self.content, &self.syntax, true_color) {
            HighlightStep::Read => WorkStep::ReadFile(
                copy_path(&file.relative),
                INLINE_TEXT_LIMIT,
            ),
            HighlightStep::FindSyntax => {
                if self.previewed {
                    WorkStep::FindSyntax
                } else {
                    self.preview(generation, index)
                }
            },
            HighlightStep::Finished(lines, notice) => WorkStep::Finished(
                Some(WorkResult::Highlight { generation, index, lines, notice }),
            ),
        }
    }

    fn git_scan_step(&self, generation: u64, root: &[u8]) -> (step: WorkStep)
        ensures
            step@ == git_scan_work(generation, root@, self@),
    {
        broadcast use group_views;

        match &self.scope {
            None => WorkStep::FindScope,
            Some(scope) => match scan(root, GitComparison::WorkingTree, scope, &self.runs) {
                ScanStep::Ask(question) => WorkStep::AskGit(question),
                ScanStep::Finished(outcome) => {
                    let result = git_scan_result(generation, outcome);
                    proof {
                        if outcome is Err {
                            assert(result@->GitScan_changes =~= Seq::empty());
                        }
                    }
                    WorkStep::Finished(Some(result))
                },
            },
        }
    }

    fn git_diff_step(
        &self,
        generation: u64,
        index: usize,
        change: &GitChange,
        root: &[u8],
    ) -> (step: WorkStep)
        ensures
            step@ == git_diff_work(generation, index, change@, root@, self@),
    {
        match diff(root, change, &self.shown) {
            DiffStep::Run(arguments) => WorkStep::ShowChange(arguments),
            DiffStep::Finished(outcome) => WorkStep::Finished(
                Some(git_diff_result(generation, index, outcome)),
            ),
        }
    }

    /// What a task needs next, or what came of it, given what has been found out so
    /// far, the newest scan that has been asked for, and whether the terminal shows
    /// all colors. What came of the task takes what was found out with it.
    pub fn step(&mut self, task: &Task, root: &[u8], newest: u64, true_color: bool) -> (step:
        WorkStep)
        ensures
            step@ == work_step(task@, root@, newest, true_color, old(self)@),
            step !is Finished ==> final(self)@ == old(self)@,
    {
        match task {
            Task::Scan(generation) => self.scan_step(*generation, newest),
            Task::Diff { generation, index, change } => self.diff_step(
                *generation,
                *index,
                change,
            ),
            Task::Highlight { generation, index, file } => self.highlight_step(
                *generation,
                *index,
                file,
                true_color,
            ),
            Task::GitScan { generation } => self.git_scan_step(*generation, root),
            Task::GitDiff { generation, index, change } => self.git_diff_step(
                *generation,
                *index,
                change,
                root,
            ),
        }
    }
}

/// The generation that a task was asked for under.
pub open spec fn task_generation(task: TaskView) -> u64 {
    match task {
        TaskView::Scan(generation) => generation,
        TaskView::Diff { generation, .. } => generation,
        TaskView::Highlight { generation, .. } => generation,
        TaskView::GitScan { generation } => generation,
        TaskView::GitDiff { generation, .. } => generation,
    }
}

/// The generation that a result belongs to.
pub open spec fn answer_generation(result: WorkResultView) -> u64 {
    match result {
        WorkResultView::Scan(scan) => scan.generation,
        WorkResultView::Diff { generation, .. } => generation,
        WorkResultView::Highlight { generation, .. } => generation,
        WorkResultView::GitScan { generation, .. } => generation,
        WorkResultView::GitDiff { generation, .. } => generation,
    }
}

/// Whatever comes of a task belongs to the generation that it was asked for under,
/// and a scan that has been overtaken comes to nothing.
pub proof fn law_answers_keep_their_generation(
    task: TaskView,
    root: Seq<u8>,
    newest: u64,
    true_color: bool,
    found: FindingsView,
)
    ensures
        ({
            let step = work_step(task, root, newest, true_color, found);
            &&& step matches WorkStepView::Finished(Some(result)) ==> answer_generation(result)
                == task_generation(task)
            &&& step matches WorkStepView::Preview(result) ==> answer_generation(result)
                == task_generation(task)
            &&& task is Scan && task_generation(task) != newest ==> step
                == WorkStepView::Finished(None)
        }),
{
}

/// The place in its list that a task asks for, where it asks for an item of one.
pub open spec fn task_index(task: TaskView) -> Option<usize> {
    match task {
        TaskView::Diff { index, .. } => Some(index),
        TaskView::Highlight { index, .. } => Some(index),
        TaskView::GitDiff { index, .. } => Some(index),
        _ => None,
    }
}

/// Whether a result is the answer to a task: of its kind, and for its place.
pub open spec fn answers(result: WorkResultView, task: TaskView) -> bool {
    match result {
        WorkResultView::Scan(_) => task is Scan,
        WorkResultView::Diff { index, .. } => task is Diff && task_index(task) == Some(index),
        WorkResultView::Highlight { index, .. } => task is Highlight && task_index(task) == Some(
            index,
        ),
        WorkResultView::GitScan { .. } => task is GitScan,
        WorkResultView::GitDiff { index, .. } => task is GitDiff && task_index(task) == Some(index),
    }
}

/// Whatever comes of a task answers that task; only a source is shown before it is
/// done, and only a scan can come to nothing.
pub proof fn law_answers_are_of_their_task(
    task: TaskView,
    root: Seq<u8>,
    newest: u64,
    true_color: bool,
    found: FindingsView,
)
    ensures
        ({
            let step = work_step(task, root, newest, true_color, found);
            &&& step matches WorkStepView::Finished(Some(result)) ==> answers(result, task)
            &&& step matches WorkStepView::Preview(result) ==> answers(result, task)
                && task is Highlight
            &&& step == WorkStepView::Finished(None) ==> task is Scan && task_generation(task)
                != newest
        }),
{
}

/// A scan that nothing has overtaken hands over all that was found, and the baseline
/// where it could be loaded; one that failed hands over the reason and no files.
pub proof fn law_a_scan_hands_over_what_was_found(
    generation: u64,
    root: Seq<u8>,
    true_color: bool,
    found: FindingsView,
)
    requires
        found.baseline is Some,
        found.capturing is Some,
        found.scanned is Some,
    ensures
        ({
            let step = work_step(TaskView::Scan(generation), root, generation, true_color, found);
            &&& step matches WorkStepView::Finished(Some(WorkResultView::Scan(scan)))
            &&& found.baseline == Some(Ok::<Option<ManifestView>, ErrorView>(scan.baseline)) || (
            found.baseline->0 is Err && scan.baseline is None)
            &&& found.capturing == Some(scan.capturing)
            &&& found.scanned->0 is Ok ==> found.scanned->0->Ok_0 == (
                scan.files,
                scan.changes,
                scan.notices,
            ) && scan.error is None
            &&& found.scanned->0 is Err ==> scan.error is Some && scan.files.len() == 0
                && scan.changes.len() == 0
        }),
{
}

/// The diff of a change is made of the blob that was recorded for it and the file that
/// is there now, each read once and only where there is one: the blob by its name, the
/// file by its path and up to two mebibytes. A rename needs neither.
pub proof fn law_a_diff_reads_its_two_texts(
    generation: u64,
    index: usize,
    change: ChangeView,
    root: Seq<u8>,
    newest: u64,
    true_color: bool,
    blob: Result<Seq<u8>, ErrorView>,
    content: Result<Seq<u8>, ErrorView>,
)
    ensures
        ({
            let task = TaskView::Diff { generation, index, change };
            let next = |found: FindingsView| work_step(task, root, newest, true_color, found);
            let with_blob = FindingsView { blob: Some(blob), ..nothing_found() };
            let with_file = FindingsView { content: Some(content), ..nothing_found() };
            let with_both = FindingsView { content: Some(content), ..with_blob };
            let recorded = change.baseline is Some && change.baseline->0.blob is Some;
            let present = change.current is Some && change.current->0.text
                == TextEligibility::Text;
            let moved = change.kind == ChangeKind::Renamed;
            &&& next(with_both) is Finished
            &&& moved || (!recorded && !present) ==> next(nothing_found()) is Finished
            &&& !moved && recorded ==> next(nothing_found()) == WorkStepView::ReadBlob(
                change.baseline->0.blob->0,
            )
            &&& !moved && present && !recorded ==> next(nothing_found())
                == WorkStepView::ReadFile(change.current->0.relative, 2_097_152)
            &&& !moved && present ==> next(with_blob) == WorkStepView::ReadFile(
                change.current->0.relative,
                2_097_152,
            )
            &&& !moved && recorded ==> next(with_file) is ReadBlob
            &&& !present ==> next(with_blob) is Finished
        }),
{
}

} // verus!

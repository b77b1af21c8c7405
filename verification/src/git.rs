//! Read-only Git comparisons: the commands to run, and what their output means.
use vstd::prelude::*;
use vstd::utf8::{decode_utf8, encode_utf8, valid_utf8};

use crate::diff::{
    law_diff_keeps_every_line, parse_unified_diff, unified_lines, DiffLine, DiffLineView,
};
use crate::model::{copy_optional_path, copy_path, ChangeKind};
use crate::path::{
    components, join, joined, parts_before, same_parts, split_path, Component, ComponentView,
};
use crate::project::{absolute_in_scope, ProjectScope, ScopeView};
use crate::seqs::{
    copy_bytes, group_views, has_infix, lemma_split_after, lemma_split_single, option_view, split,
    split_bytes, views,
};
use crate::sort::{
    arranged, as_ints, key_before, key_views, law_order_is_sorted, law_sorting_keeps_every_item,
    order, sorted_indices, Keys,
};
use crate::text::{
    contains, decimal, from_chars, is_digit, join3, law_numbers_are_read_back,
    law_trimming_cuts_white_space, lemma_decimal, lossy, lossy_text, parse_number, parsed_number,
    text_lines, to_chars, trim, trimmed, utf8_text,
};

verus! {

/// Largest output of a Git command, in bytes, that is looked at.
pub const MAX_GIT_OUTPUT_BYTES: usize = 32 * 1024 * 1024;

/// What is compared: the working tree with `HEAD`, or `HEAD` with the tracked
/// remote branch.
#[derive(Clone, Copy, Debug, PartialEq, Eq, Structural)]
pub enum GitComparison {
    WorkingTree,
    Unpushed,
}

/// Where the edits to a file stand.
#[derive(Clone, Copy, Debug, PartialEq, Eq, Structural)]
pub enum GitFileState {
    Staged,
    Unstaged,
    StagedAndUnstaged,
    Untracked,
    Committed,
}

pub open spec fn state_label(state: GitFileState) -> Seq<char> {
    match state {
        GitFileState::Staged => "staged"@,
        GitFileState::Unstaged => "unstaged"@,
        GitFileState::StagedAndUnstaged => "mixed"@,
        GitFileState::Untracked => "untracked"@,
        GitFileState::Committed => "committed"@,
    }
}

impl GitFileState {
    /// The word shown for the state.
    pub fn label(self) -> (text: &'static str)
        ensures
            text@ == state_label(self),
    {
        match self {
            GitFileState::Staged => "staged",
            GitFileState::Unstaged => "unstaged",
            GitFileState::StagedAndUnstaged => "mixed",
            GitFileState::Untracked => "untracked",
            GitFileState::Committed => "committed",
        }
    }
}

/// A file that differs in a comparison.
#[derive(Debug, PartialEq, Eq)]
pub struct GitChange {
    pub kind: ChangeKind,
    pub path: Vec<u8>,
    pub old_path: Option<Vec<u8>>,
    pub untracked: bool,
    pub comparison: GitComparison,
    pub state: GitFileState,
}

pub ghost struct GitChangeView {
    pub kind: ChangeKind,
    pub path: Seq<u8>,
    pub old_path: Option<Seq<u8>>,
    pub untracked: bool,
    pub comparison: GitComparison,
    pub state: GitFileState,
}

impl View for GitChange {
    type V = GitChangeView;

    open spec fn view(&self) -> GitChangeView {
        GitChangeView {
            kind: self.kind,
            path: self.path@,
            old_path: option_view(self.old_path),
            untracked: self.untracked,
            comparison: self.comparison,
            state: self.state,
        }
    }
}

impl Clone for GitChange {
    fn clone(&self) -> (copy: Self)
        ensures
            copy@ == self@,
    {
        GitChange {
            kind: self.kind,
            path: copy_path(&self.path),
            old_path: copy_optional_path(&self.old_path),
            untracked: self.untracked,
            comparison: self.comparison,
            state: self.state,
        }
    }
}

/// The state of a tracked change before the index has been looked at.
pub open spec fn first_state(comparison: GitComparison) -> GitFileState {
    match comparison {
        GitComparison::WorkingTree => GitFileState::Unstaged,
        GitComparison::Unpushed => GitFileState::Committed,
    }
}

pub open spec fn tracked_change(
    kind: ChangeKind,
    path: Seq<u8>,
    old_path: Option<Seq<u8>>,
    comparison: GitComparison,
) -> GitChangeView {
    GitChangeView {
        kind,
        path,
        old_path,
        untracked: false,
        comparison,
        state: first_state(comparison),
    }
}

/// The changes that a `--name-status -z` listing names, its fields given one by
/// one. The listing ends at an empty status.
pub open spec fn name_status(fields: Seq<Seq<u8>>, comparison: GitComparison) -> Result<
    Seq<GitChangeView>,
    Seq<char>,
>
    decreases fields.len(),
{
    if fields.len() == 0 || fields[0].len() == 0 {
        Ok(Seq::empty())
    } else if fields.len() < 2 {
        Err("Git returned an incomplete name-status record."@)
    } else {
        let code = fields[0][0];
        let first = fields[1];
        if code == 82 || code == 67 {
            if fields.len() < 3 {
                Err("Git returned an incomplete rename record."@)
            } else {
                let kind = if code == 82 {
                    ChangeKind::Renamed
                } else {
                    ChangeKind::Added
                };
                before_rest(
                    tracked_change(kind, fields[2], Some(first), comparison),
                    name_status(fields.skip(3), comparison),
                )
            }
        } else {
            let kind = if code == 65 {
                ChangeKind::Added
            } else if code == 68 {
                ChangeKind::Deleted
            } else {
                ChangeKind::Modified
            };
            before_rest(
                tracked_change(kind, first, None, comparison),
                name_status(fields.skip(2), comparison),
            )
        }
    }
}

pub open spec fn before_rest(
    change: GitChangeView,
    rest: Result<Seq<GitChangeView>, Seq<char>>,
) -> Result<Seq<GitChangeView>, Seq<char>> {
    match rest {
        Ok(changes) => Ok(seq![change] + changes),
        Err(message) => Err(message),
    }
}

/// What a result of changes holds.
pub open spec fn changes_view(result: Result<Vec<GitChange>, String>) -> Result<
    Seq<GitChangeView>,
    Seq<char>,
> {
    match result {
        Ok(changes) => Ok(views(changes@)),
        Err(message) => Err(message@),
    }
}

spec fn after_done(
    done: Seq<GitChangeView>,
    rest: Result<Seq<GitChangeView>, Seq<char>>,
) -> Result<Seq<GitChangeView>, Seq<char>> {
    match rest {
        Ok(changes) => Ok(done + changes),
        Err(message) => Err(message),
    }
}

proof fn lemma_after_done_nothing(rest: Result<Seq<GitChangeView>, Seq<char>>)
    ensures
        after_done(Seq::empty(), rest) == rest,
{
    if let Ok(changes) = rest {
        assert(Seq::<GitChangeView>::empty() + changes =~= changes);
    }
}

proof fn lemma_after_done_step(
    done: Seq<GitChangeView>,
    change: GitChangeView,
    rest: Result<Seq<GitChangeView>, Seq<char>>,
)
    ensures
        after_done(done, before_rest(change, rest)) == after_done(done.push(change), rest),
{
    if let Ok(changes) = rest {
        assert(done + (seq![change] + changes) =~= done.push(change) + changes);
    }
}

/// The state that the two columns of a status record mean.
pub open spec fn column_state(index: u8, worktree: u8) -> GitFileState {
    if index == 63 && worktree == 63 {
        GitFileState::Untracked
    } else if index != 32 && worktree != 32 {
        GitFileState::StagedAndUnstaged
    } else if index != 32 {
        GitFileState::Staged
    } else {
        GitFileState::Unstaged
    }
}

pub open spec fn moves(column: u8) -> bool {
    column == 82 || column == 67
}

pub type StatusMap = Map<Seq<ComponentView>, GitFileState>;

/// The state of each path that a `--porcelain=v1 -z` listing names, its fields
/// given one by one; a later record for a path replaces an earlier one.
pub open spec fn porcelain(fields: Seq<Seq<u8>>, known: StatusMap) -> Result<StatusMap, Seq<char>>
    decreases fields.len(),
{
    if fields.len() == 0 || fields[0].len() == 0 {
        Ok(known)
    } else if fields[0].len() < 3 {
        Err("Git returned an incomplete status record."@)
    } else {
        let record = fields[0];
        let state = column_state(record[0], record[1]);
        let with_path = known.insert(components(record.skip(3)), state);
        if moves(record[0]) || moves(record[1]) {
            if fields.len() < 2 || fields[1].len() == 0 {
                Err("Git returned an incomplete rename status record."@)
            } else {
                porcelain(fields.skip(2), with_path.insert(components(fields[1]), state))
            }
        } else {
            porcelain(fields.skip(1), with_path)
        }
    }
}

/// The state of a change: that of its path, else that of the path it had.
pub open spec fn state_of(statuses: StatusMap, change: GitChangeView) -> GitFileState {
    if statuses.dom().contains(components(change.path)) {
        statuses[components(change.path)]
    } else {
        match change.old_path {
            Some(path) => if statuses.dom().contains(components(path)) {
                statuses[components(path)]
            } else {
                GitFileState::Unstaged
            },
            None => GitFileState::Unstaged,
        }
    }
}

pub open spec fn with_states(
    changes: Seq<GitChangeView>,
    statuses: StatusMap,
) -> Seq<GitChangeView> {
    Seq::new(
        changes.len(),
        |i: int| GitChangeView { state: state_of(statuses, changes[i]), ..changes[i] },
    )
}

/// Whether a change names the path, as its place or as its former place.
pub open spec fn names_path(change: GitChangeView, path: Seq<u8>) -> bool {
    components(change.path) == components(path) || (change.old_path matches Some(old) && components(
        old,
    ) == components(path))
}

pub open spec fn any_names_path(changes: Seq<GitChangeView>, path: Seq<u8>) -> bool {
    exists|i: int| 0 <= i < changes.len() && names_path(#[trigger] changes[i], path)
}

pub open spec fn untracked_change(path: Seq<u8>) -> GitChangeView {
    GitChangeView {
        kind: ChangeKind::Added,
        path,
        old_path: None,
        untracked: true,
        comparison: GitComparison::WorkingTree,
        state: GitFileState::Untracked,
    }
}

/// The untracked files that no tracked change names.
pub open spec fn untracked_changes(
    fields: Seq<Seq<u8>>,
    known: Seq<GitChangeView>,
) -> Seq<GitChangeView>
    decreases fields.len(),
{
    if fields.len() == 0 {
        Seq::empty()
    } else {
        let rest = untracked_changes(fields.skip(1), known);
        if fields[0].len() == 0 || any_names_path(known, fields[0]) {
            rest
        } else {
            seq![untracked_change(fields[0])] + rest
        }
    }
}

/// Whether the scope holds the change, at its place or at its former place.
pub open spec fn change_in_scope(scope: ScopeView, root: Seq<u8>, change: GitChangeView) -> bool {
    absolute_in_scope(scope, joined(root, change.path), false) || (change.old_path matches Some(
        old,
    ) && absolute_in_scope(scope, joined(root, old), false))
}

pub open spec fn scoped_changes(
    changes: Seq<GitChangeView>,
    scope: Option<ScopeView>,
    root: Seq<u8>,
) -> Seq<GitChangeView> {
    match scope {
        Some(view) => changes.filter(|change: GitChangeView| change_in_scope(view, root, change)),
        None => changes,
    }
}

pub open spec fn change_paths(changes: Seq<GitChangeView>) -> Keys {
    Seq::new(changes.len(), |i: int| components(changes[i].path))
}

/// The changes by path; those with one path keep their order.
pub open spec fn by_path(changes: Seq<GitChangeView>) -> Seq<GitChangeView> {
    arranged(changes, order(change_paths(changes)))
}

/// The output of a finished Git process.
#[derive(Debug)]
pub struct GitOutput {
    pub success: bool,
    pub code: Option<i32>,
    pub stdout: Vec<u8>,
    pub stderr: Vec<u8>,
}

pub ghost struct GitOutputView {
    pub success: bool,
    pub code: Option<i32>,
    pub stdout: Seq<u8>,
    pub stderr: Seq<u8>,
}

impl View for GitOutput {
    type V = GitOutputView;

    open spec fn view(&self) -> GitOutputView {
        GitOutputView {
            success: self.success,
            code: self.code,
            stdout: self.stdout@,
            stderr: self.stderr@,
        }
    }
}

/// How running Git went: its output, or why it could not be run.
#[derive(Debug)]
pub enum GitRun {
    Finished(GitOutput),
    NotStarted(String),
}

pub ghost enum GitRunView {
    Finished(GitOutputView),
    NotStarted(Seq<char>),
}

impl View for GitRun {
    type V = GitRunView;

    open spec fn view(&self) -> GitRunView {
        match self {
            GitRun::Finished(output) => GitRunView::Finished(output@),
            GitRun::NotStarted(error) => GitRunView::NotStarted(error@),
        }
    }
}

pub open spec fn over_limit(output: Seq<u8>) -> bool {
    output.len() > MAX_GIT_OUTPUT_BYTES
}

pub open spec fn limit_message(operation: Seq<char>) -> Seq<char> {
    operation + " output exceeds the 32 MiB viewer limit."@
}

/// What a failed command is reported as: the fallback, with what the command
/// wrote to its error stream.
pub open spec fn failure_message(stderr: Seq<u8>, fallback: Seq<char>) -> Seq<char> {
    let detail = trim(lossy(stderr));
    if detail.len() == 0 {
        fallback
    } else {
        fallback + ": "@ + detail
    }
}

/// The standard output of a command that went well.
pub open spec fn checked_output(
    run: GitRunView,
    fallback: Seq<char>,
    operation: Seq<char>,
) -> Result<Seq<u8>, Seq<char>> {
    match run {
        GitRunView::NotStarted(error) => Err("Unable to run Git: "@ + error),
        GitRunView::Finished(output) => if !output.success {
            Err(failure_message(output.stderr, fallback))
        } else if over_limit(output.stdout) {
            Err(limit_message(operation))
        } else {
            Ok(output.stdout)
        },
    }
}

/// Why there is no `HEAD` to compare with, where there is none.
pub open spec fn head_problem(run: GitRunView) -> Option<Seq<char>> {
    match run {
        GitRunView::NotStarted(error) => Some("Unable to run Git: "@ + error),
        GitRunView::Finished(output) => if output.success {
            None
        } else if has_infix(lossy(output.stderr), "not a git repository"@) {
            Some("This workspace is not inside a Git repository."@)
        } else {
            Some("This Git repository has no HEAD commit yet."@)
        },
    }
}

pub open spec fn upstream_problem(run: GitRunView) -> Option<Seq<char>> {
    match run {
        GitRunView::NotStarted(error) => Some("Unable to run Git: "@ + error),
        GitRunView::Finished(output) => if output.success {
            None
        } else {
            Some(
                "This branch has no tracked remote branch. Push it with `git push -u` to view unpushed commits."@,
            )
        },
    }
}

/// Reads a `--name-status -z` listing.
pub fn parse_name_status(bytes: &[u8], comparison: GitComparison) -> (result: Result<
    Vec<GitChange>,
    String,
>)
    ensures
        changes_view(result) == name_status(split(bytes@, 0), comparison),
{
    broadcast use group_views;

    let fields = split_bytes(bytes, 0);
    let ghost all = views(fields@);
    let count = fields.len();
    let mut changes: Vec<GitChange> = Vec::new();
    let mut i: usize = 0;
    let ghost wanted = name_status(all, comparison);
    proof {
        assert(all.skip(0) =~= all);
        lemma_after_done_nothing(name_status(all, comparison));
    }
    while i < count && fields[i].len() > 0
        invariant
            i <= count == fields@.len(),
            all == views(fields@),
            wanted == name_status(split(bytes@, 0), comparison),
            wanted == after_done(views(changes@), name_status(all.skip(i as int), comparison)),
        decreases count - i,
    {
        let ghost done = views(changes@);
        let ghost rest = all.skip(i as int);
        let code = fields[i][0];
        if count - i < 2 {
            return Err("Git returned an incomplete name-status record.".to_owned());
        }
        let state = match comparison {
            GitComparison::WorkingTree => GitFileState::Unstaged,
            GitComparison::Unpushed => GitFileState::Committed,
        };
        if code == 82 || code == 67 {
            if count - i < 3 {
                return Err("Git returned an incomplete rename record.".to_owned());
            }
            let kind = if code == 82 {
                ChangeKind::Renamed
            } else {
                ChangeKind::Added
            };
            let change = GitChange {
                kind,
                path: copy_path(&fields[i + 2]),
                old_path: Some(copy_path(&fields[i + 1])),
                untracked: false,
                comparison,
                state,
            };
            proof {
                assert(rest.skip(3) =~= all.skip(i + 3));
                assert(change@ == tracked_change(kind, rest[2], Some(rest[1]), comparison));
                assert(name_status(rest, comparison) == before_rest(
                    change@,
                    name_status(rest.skip(3), comparison),
                ));
                lemma_after_done_step(done, change@, name_status(all.skip(i + 3), comparison));
            }
            let ghost added = change@;
            changes.push(change);
            proof {
                assert(views(changes@) == done.push(added));
            }
            i += 3;
        } else {
            let kind = if code == 65 {
                ChangeKind::Added
            } else if code == 68 {
                ChangeKind::Deleted
            } else {
                ChangeKind::Modified
            };
            let change = GitChange {
                kind,
                path: copy_path(&fields[i + 1]),
                old_path: None,
                untracked: false,
                comparison,
                state,
            };
            proof {
                assert(rest.skip(2) =~= all.skip(i + 2));
                assert(change@ == tracked_change(kind, rest[1], None, comparison));
                assert(name_status(rest, comparison) == before_rest(
                    change@,
                    name_status(rest.skip(2), comparison),
                ));
                lemma_after_done_step(done, change@, name_status(all.skip(i + 2), comparison));
            }
            let ghost added = change@;
            changes.push(change);
            proof {
                assert(views(changes@) == done.push(added));
            }
            i += 2;
        }
    }
    proof {
        assert(views(changes@) + Seq::<GitChangeView>::empty() =~= views(changes@));
    }
    Ok(changes)
}

/// The state of one path.
#[derive(Debug)]
pub struct StatusEntry {
    pub parts: Vec<Component>,
    pub state: GitFileState,
}

impl View for StatusEntry {
    type V = (Seq<ComponentView>, GitFileState);

    open spec fn view(&self) -> (Seq<ComponentView>, GitFileState) {
        (views(self.parts@), self.state)
    }
}

/// The states of the paths in a working tree, a later entry standing before an
/// earlier one for the same path.
#[derive(Debug)]
pub struct Statuses {
    pub entries: Vec<StatusEntry>,
}

pub open spec fn entry_map(entries: Seq<(Seq<ComponentView>, GitFileState)>) -> StatusMap
    decreases entries.len(),
{
    if entries.len() == 0 {
        Map::empty()
    } else {
        entry_map(entries.drop_last()).insert(entries.last().0, entries.last().1)
    }
}

impl View for Statuses {
    type V = StatusMap;

    open spec fn view(&self) -> StatusMap {
        entry_map(views(self.entries@))
    }
}

impl Statuses {
    pub fn new() -> (statuses: Statuses)
        ensures
            statuses@ == StatusMap::empty(),
    {
        broadcast use group_views;

        Statuses { entries: Vec::new() }
    }

    /// Notes the state of a path.
    pub fn insert(&mut self, path: &[u8], state: GitFileState)
        ensures
            final(self)@ == old(self)@.insert(components(path@), state),
    {
        broadcast use group_views;

        let ghost before = views(self.entries@);
        let entry = StatusEntry { parts: split_path(path), state };
        proof {
            assert(before.push(entry@).drop_last() =~= before);
        }
        self.entries.push(entry);
    }

    /// The state noted for a path.
    pub fn get(&self, path: &[u8]) -> (state: Option<GitFileState>)
        ensures
            state == (if self@.dom().contains(components(path@)) {
                Some(self@[components(path@)])
            } else {
                None
            }),
    {
        let parts = split_path(path);
        let ghost all = views(self.entries@);
        let ghost key = components(path@);
        let mut i: usize = self.entries.len();
        proof {
            assert(all.take(i as int) =~= all);
        }
        while i > 0
            invariant
                i <= self.entries@.len(),
                all == views(self.entries@),
                key == views(parts@),
                key == components(path@),
                self@.dom().contains(key) == entry_map(all.take(i as int)).dom().contains(key),
                self@.dom().contains(key) ==> self@[key] == entry_map(all.take(i as int))[key],
            decreases i,
        {
            proof {
                assert(all.take(i as int).drop_last() =~= all.take(i - 1));
                assert(all.take(i as int).last() == all[i - 1]);
            }
            if same_parts(&self.entries[i - 1].parts, &parts) {
                return Some(self.entries[i - 1].state);
            }
            i -= 1;
        }
        None
    }
}

/// The state that the two columns of a status record mean.
pub fn porcelain_state(index: u8, worktree: u8) -> (state: GitFileState)
    ensures
        state == column_state(index, worktree),
{
    if index == 63 && worktree == 63 {
        GitFileState::Untracked
    } else if index != 32 && worktree != 32 {
        GitFileState::StagedAndUnstaged
    } else if index != 32 {
        GitFileState::Staged
    } else {
        GitFileState::Unstaged
    }
}

/// What a result of statuses holds.
pub open spec fn statuses_view(result: Result<Statuses, String>) -> Result<StatusMap, Seq<char>> {
    match result {
        Ok(statuses) => Ok(statuses@),
        Err(message) => Err(message@),
    }
}

/// Reads a `--porcelain=v1 -z` listing.
pub fn parse_porcelain_status(bytes: &[u8]) -> (result: Result<Statuses, String>)
    ensures
        statuses_view(result) == porcelain(split(bytes@, 0), Map::empty()),
{
    let fields = split_bytes(bytes, 0);
    let ghost all = views(fields@);
    let count = fields.len();
    let mut statuses = Statuses::new();
    let mut i: usize = 0;
    proof {
        assert(all.skip(0) =~= all);
    }
    while i < count && fields[i].len() > 0
        invariant
            i <= count == fields@.len(),
            all == views(fields@),
            all == split(bytes@, 0),
            porcelain(all, Map::empty()) == porcelain(all.skip(i as int), statuses@),
        decreases count - i,
    {
        let ghost rest = all.skip(i as int);
        if fields[i].len() < 3 {
            return Err("Git returned an incomplete status record.".to_owned());
        }
        let index = fields[i][0];
        let worktree = fields[i][1];
        let state = porcelain_state(index, worktree);
        let path = copy_bytes(&fields[i], 3, fields[i].len());
        proof {
            assert(path@ =~= rest[0].skip(3));
        }
        statuses.insert(&path, state);
        if index == 82 || index == 67 || worktree == 82 || worktree == 67 {
            if count - i < 2 || fields[i + 1].len() == 0 {
                return Err("Git returned an incomplete rename status record.".to_owned());
            }
            proof {
                assert(rest.skip(2) =~= all.skip(i + 2));
                assert(rest[1] == all[i + 1]);
            }
            statuses.insert(&fields[i + 1], state);
            i += 2;
        } else {
            proof {
                assert(rest.skip(1) =~= all.skip(i + 1));
            }
            i += 1;
        }
    }
    Ok(statuses)
}

/// The state of a change: that of its path, else that of the path it had.
pub fn change_state(statuses: &Statuses, change: &GitChange) -> (state: GitFileState)
    ensures
        state == state_of(statuses@, change@),
{
    match statuses.get(&change.path) {
        Some(state) => state,
        None => match &change.old_path {
            Some(path) => match statuses.get(path) {
                Some(state) => state,
                None => GitFileState::Unstaged,
            },
            None => GitFileState::Unstaged,
        },
    }
}

/// Gives each change the state of its path.
fn assign_states(changes: Vec<GitChange>, statuses: &Statuses) -> (result: Vec<GitChange>)
    ensures
        views(result@) == with_states(views(changes@), statuses@),
{
    broadcast use group_views;

    let mut result: Vec<GitChange> = Vec::new();
    let ghost wanted = with_states(views(changes@), statuses@);
    let mut i: usize = 0;
    while i < changes.len()
        invariant
            i <= changes@.len(),
            wanted == with_states(views(changes@), statuses@),
            views(result@) == wanted.take(i as int),
        decreases changes@.len() - i,
    {
        let mut change = changes[i].clone();
        change.state = change_state(statuses, &changes[i]);
        proof {
            assert(wanted.take(i + 1) =~= wanted.take(i as int).push(change@));
        }
        result.push(change);
        i += 1;
    }
    proof {
        assert(wanted.take(i as int) =~= wanted);
    }
    result
}

/// Whether one of the changes names the path.
fn names_any(changes: &Vec<GitChange>, path: &[u8]) -> (named: bool)
    ensures
        named == any_names_path(views(changes@), path@),
{
    let parts = split_path(path);
    let ghost all = views(changes@);
    let mut i: usize = 0;
    while i < changes.len()
        invariant
            i <= changes@.len(),
            all == views(changes@),
            views(parts@) == components(path@),
            forall|j: int| 0 <= j < i ==> !names_path(#[trigger] all[j], path@),
        decreases changes@.len() - i,
    {
        let current = split_path(&changes[i].path);
        let named = same_parts(&current, &parts) || match &changes[i].old_path {
            Some(old) => {
                let former = split_path(old);
                same_parts(&former, &parts)
            },
            None => false,
        };
        proof {
            assert(named == names_path(all[i as int], path@));
        }
        if named {
            return true;
        }
        i += 1;
    }
    false
}

/// The untracked files that no change names.
fn find_untracked(bytes: &[u8], changes: &Vec<GitChange>) -> (result: Vec<GitChange>)
    ensures
        views(result@) == untracked_changes(split(bytes@, 0), views(changes@)),
{
    broadcast use group_views;

    let fields = split_bytes(bytes, 0);
    let ghost all = views(fields@);
    let ghost known = views(changes@);
    let mut result: Vec<GitChange> = Vec::new();
    let mut i: usize = 0;
    proof {
        assert(all.skip(0) =~= all);
        assert(Seq::<GitChangeView>::empty() + untracked_changes(all, known) =~= untracked_changes(
            all,
            known,
        ));
    }
    while i < fields.len()
        invariant
            i <= fields@.len(),
            all == views(fields@),
            known == views(changes@),
            views(result@) + untracked_changes(all.skip(i as int), known) == untracked_changes(
                all,
                known,
            ),
        decreases fields@.len() - i,
    {
        let ghost rest = all.skip(i as int);
        let ghost done = views(result@);
        proof {
            assert(rest.skip(1) =~= all.skip(i + 1));
            assert(rest[0] == all[i as int]);
        }
        if fields[i].len() > 0 && !names_any(changes, &fields[i]) {
            let change = GitChange {
                kind: ChangeKind::Added,
                path: copy_path(&fields[i]),
                old_path: None,
                untracked: true,
                comparison: GitComparison::WorkingTree,
                state: GitFileState::Untracked,
            };
            proof {
                assert(change@ == untracked_change(rest[0]));
                assert(done + (seq![change@] + untracked_changes(rest.skip(1), known))
                    =~= done.push(change@) + untracked_changes(rest.skip(1), known));
            }
            result.push(change);
        }
        i += 1;
    }
    proof {
        assert(all.skip(i as int) =~= Seq::empty());
        assert(views(result@) + Seq::<GitChangeView>::empty() =~= views(result@));
    }
    result
}

/// Leaves out the changes that the scope does not hold.
fn retain_scoped(changes: Vec<GitChange>, scope: &Option<ProjectScope>, root: &[u8]) -> (result:
    Vec<GitChange>)
    ensures
        views(result@) == scoped_changes(views(changes@), option_view(*scope), root@),
{
    broadcast use group_views;

    match scope {
        None => changes,
        Some(view) => {
            let ghost all = views(changes@);
            let ghost wanted = |change: GitChangeView| change_in_scope(view@, root@, change);
            let mut result: Vec<GitChange> = Vec::new();
            let mut i: usize = 0;
            proof {
                reveal(Seq::filter);
                assert(all.take(0).filter(wanted) =~= Seq::empty());
            }
            while i < changes.len()
                invariant
                    i <= changes@.len(),
                    all == views(changes@),
                    wanted == (|change: GitChangeView| change_in_scope(view@, root@, change)),
                    views(result@) == all.take(i as int).filter(wanted),
                decreases changes@.len() - i,
            {
                let inside = view.contains_path(root, &changes[i].path) || match &changes[i].old_path {
                    Some(old) => view.contains_path(root, old),
                    None => false,
                };
                proof {
                    reveal(Seq::filter);
                    assert(all.take(i + 1).drop_last() =~= all.take(i as int));
                    assert(all.take(i + 1).last() == all[i as int]);
                    assert(inside == change_in_scope(view@, root@, all[i as int]));
                }
                if inside {
                    result.push(changes[i].clone());
                }
                i += 1;
            }
            proof {
                assert(all.take(i as int) =~= all);
            }
            result
        },
    }
}

/// The changes by path; those with one path keep their order.
fn sort_by_path(changes: Vec<GitChange>) -> (sorted: Vec<GitChange>)
    ensures
        views(sorted@) == by_path(views(changes@)),
{
    broadcast use group_views;

    let mut keys: Vec<Vec<Component>> = Vec::new();
    let ghost all = views(changes@);
    let mut i: usize = 0;
    while i < changes.len()
        invariant
            i <= changes@.len(),
            all == views(changes@),
            key_views(keys@) == change_paths(all).take(i as int),
        decreases changes@.len() - i,
    {
        let key = split_path(&changes[i].path);
        let ghost before = key_views(keys@);
        keys.push(key);
        proof {
            assert(key_views(keys@) =~= before.push(views(key@)));
            assert(change_paths(all).take(i + 1) =~= before.push(views(key@)));
        }
        i += 1;
    }
    proof {
        assert(change_paths(all).take(i as int) =~= change_paths(all));
        assert(keys@.len() == key_views(keys@).len());
    }
    let indices = sorted_indices(&keys);
    let ghost wanted = by_path(all);
    let mut sorted: Vec<GitChange> = Vec::new();
    let mut k: usize = 0;
    proof {
        assert(wanted.take(0) =~= Seq::empty());
    }
    while k < indices.len()
        invariant
            k <= indices@.len(),
            all == views(changes@),
            wanted == by_path(all),
            as_ints(indices@) == order(change_paths(all)),
            forall|i: int| 0 <= i < indices@.len() ==> #[trigger] indices@[i] < changes@.len(),
            views(sorted@) == wanted.take(k as int),
        decreases indices@.len() - k,
    {
        let change = changes[indices[k]].clone();
        proof {
            assert(as_ints(indices@)[k as int] == indices@[k as int] as int);
            assert(wanted[k as int] == change@);
            assert(wanted.take(k + 1) =~= wanted.take(k as int).push(change@));
        }
        sorted.push(change);
        k += 1;
    }
    proof {
        assert(as_ints(indices@).len() == indices@.len());
        assert(wanted.take(k as int) =~= wanted);
    }
    sorted
}

/// Refuses output that is too long.
pub fn ensure_output_limit(output: &[u8], operation: &str) -> (result: Result<(), String>)
    ensures
        result is Err <==> over_limit(output@),
        result matches Err(message) ==> message@ == limit_message(operation@),
{
    if output.len() > MAX_GIT_OUTPUT_BYTES {
        let mut message = operation.to_owned();
        message.append(" output exceeds the 32 MiB viewer limit.");
        Err(message)
    } else {
        Ok(())
    }
}

/// What a failed command is reported as.
pub fn command_error(stderr: &[u8], fallback: &str) -> (message: String)
    ensures
        message@ == failure_message(stderr@, fallback@),
{
    let text = lossy_text(stderr);
    let chars = to_chars(text.as_str());
    let detail = trimmed(&chars);
    if detail.len() == 0 {
        fallback.to_owned()
    } else {
        let shown = from_chars(&detail, 0, detail.len());
        proof {
            assert(shown@ =~= detail@);
        }
        join3(fallback, ": ", shown.as_str())
    }
}

pub open spec fn bytes_view(result: Result<&Vec<u8>, String>) -> Result<Seq<u8>, Seq<char>> {
    match result {
        Ok(bytes) => Ok(bytes@),
        Err(message) => Err(message@),
    }
}

fn not_run(prefix: &str, error: &String) -> (message: String)
    ensures
        message@ == prefix@ + error@,
{
    let mut message = prefix.to_owned();
    message.append(error.as_str());
    message
}

/// The standard output of a command that went well.
fn checked_stdout<'a>(run: &'a GitRun, fallback: &str, operation: &str) -> (result: Result<
    &'a Vec<u8>,
    String,
>)
    ensures
        bytes_view(result) == checked_output(run@, fallback@, operation@),
{
    match run {
        GitRun::NotStarted(error) => Err(not_run("Unable to run Git: ", error)),
        GitRun::Finished(output) => {
            if !output.success {
                return Err(command_error(&output.stderr, fallback));
            }
            match ensure_output_limit(&output.stdout, operation) {
                Err(message) => Err(message),
                Ok(()) => Ok(&output.stdout),
            }
        },
    }
}

/// Why there is no `HEAD` to compare with, where there is none.
pub fn ensure_head(run: &GitRun) -> (result: Result<(), String>)
    ensures
        (match result {
            Ok(()) => None,
            Err(message) => Some(message@),
        }) == head_problem(run@),
{
    match run {
        GitRun::NotStarted(error) => Err(not_run("Unable to run Git: ", error)),
        GitRun::Finished(output) => {
            if output.success {
                return Ok(());
            }
            let text = lossy_text(&output.stderr);
            let chars = to_chars(text.as_str());
            let needle = to_chars("not a git repository");
            if contains(&chars, &needle) {
                Err("This workspace is not inside a Git repository.".to_owned())
            } else {
                Err("This Git repository has no HEAD commit yet.".to_owned())
            }
        },
    }
}

fn ensure_upstream(run: &GitRun) -> (result: Result<(), String>)
    ensures
        (match result {
            Ok(()) => None,
            Err(message) => Some(message@),
        }) == upstream_problem(run@),
{
    match run {
        GitRun::NotStarted(error) => Err(not_run("Unable to run Git: ", error)),
        GitRun::Finished(output) => {
            if output.success {
                Ok(())
            } else {
                Err(
                    "This branch has no tracked remote branch. Push it with `git push -u` to view unpushed commits.".to_owned(),
                )
            }
        },
    }
}

/// A question that a scan asks Git.
#[derive(Clone, Copy, Debug, PartialEq, Eq, Structural)]
pub enum GitQuestion {
    Head,
    Upstream,
    Changes(GitComparison),
    States,
    Untracked,
    UnpushedCount,
}

pub open spec fn word(text: Seq<char>) -> Seq<u8> {
    encode_utf8(text)
}

pub open spec fn reference(comparison: GitComparison) -> Seq<u8> {
    match comparison {
        GitComparison::WorkingTree => word("HEAD"@),
        GitComparison::Unpushed => word("@{upstream}..HEAD"@),
    }
}

/// The Git arguments that ask the question.
pub open spec fn question_arguments(question: GitQuestion) -> Seq<Seq<u8>> {
    match question {
        GitQuestion::Head => seq![word("rev-parse"@), word("--verify"@), word("HEAD"@)],
        GitQuestion::Upstream => seq![
            word("rev-parse"@),
            word("--verify"@),
            word("--abbrev-ref"@),
            word("@{upstream}"@),
        ],
        GitQuestion::Changes(comparison) => seq![
            word("diff"@),
            word("--relative"@),
            word("--name-status"@),
            word("-z"@),
            word("--find-renames"@),
            word("--no-ext-diff"@),
            word("--no-textconv"@),
            reference(comparison),
            word("--"@),
        ],
        GitQuestion::States => seq![
            word("status"@),
            word("--porcelain=v1"@),
            word("-z"@),
            word("--untracked-files=all"@),
            word("--"@),
        ],
        GitQuestion::Untracked => seq![
            word("ls-files"@),
            word("--others"@),
            word("--exclude-standard"@),
            word("-z"@),
            word("--"@),
        ],
        GitQuestion::UnpushedCount => seq![
            word("rev-list"@),
            word("--count"@),
            word("@{upstream}..HEAD"@),
        ],
    }
}

/// The Git arguments that show a change.
pub open spec fn diff_arguments(root: Seq<u8>, change: GitChangeView) -> Seq<Seq<u8>> {
    if change.untracked {
        seq![
            word("diff"@),
            word("--no-index"@),
            word("--no-ext-diff"@),
            word("--no-textconv"@),
            word("--no-color"@),
            word("--unified=3"@),
            word("--"@),
            word("/dev/null"@),
            joined(root, change.path),
        ]
    } else {
        seq![
            word("diff"@),
            word("--no-ext-diff"@),
            word("--no-textconv"@),
            word("--no-color"@),
            word("--find-renames"@),
            word("--unified=3"@),
            reference(change.comparison),
            word("--"@),
            change.path,
        ]
    }
}

/// A run of Git: its arguments, and what its environment holds besides that of
/// the viewer, a name and a value each.
#[derive(Debug)]
pub struct GitCommand {
    pub arguments: Vec<Vec<u8>>,
    pub environment: Vec<(Vec<u8>, Vec<u8>)>,
}

pub ghost struct GitCommandView {
    pub arguments: Seq<Seq<u8>>,
    pub environment: Seq<(Seq<u8>, Seq<u8>)>,
}

impl View for GitCommand {
    type V = GitCommandView;

    open spec fn view(&self) -> GitCommandView {
        GitCommandView {
            arguments: views(self.arguments@),
            environment: views(self.environment@),
        }
    }
}

/// What keeps Git from writing to the repository on the side, as it does to renew
/// its index.
pub open spec fn without_locks() -> (Seq<u8>, Seq<u8>) {
    (word("GIT_OPTIONAL_LOCKS"@), word("0"@))
}

/// What keeps Git from asking for a password.
pub open spec fn without_prompts() -> (Seq<u8>, Seq<u8>) {
    (word("GIT_TERMINAL_PROMPT"@), word("0"@))
}

/// All that is handed to Git: the directory it is to trust and to work in, then
/// the arguments; and an environment in which it takes no locks and asks nothing.
pub open spec fn invocation(directory: Seq<u8>, arguments: Seq<Seq<u8>>) -> GitCommandView {
    GitCommandView {
        arguments: seq![
            word("-c"@),
            word("safe.directory="@) + directory,
            word("-C"@),
            directory,
        ] + arguments,
        environment: seq![without_locks(), without_prompts()],
    }
}

/// The Git subcommands that only read.
pub open spec fn reading_subcommand(name: Seq<u8>) -> bool {
    ||| name == word("rev-parse"@)
    ||| name == word("rev-list"@)
    ||| name == word("diff"@)
    ||| name == word("status"@)
    ||| name == word("ls-files"@)
}

/// Whether the command, behind the directory it is to trust and to work in, names a
/// subcommand that only reads, and has Git take no locks that it could do without.
pub open spec fn only_reads(command: GitCommandView) -> bool {
    &&& command.arguments.len() > 4
    &&& reading_subcommand(command.arguments[4])
    &&& command.environment.contains(without_locks())
}

fn push_word(list: &mut Vec<Vec<u8>>, text: &str)
    ensures
        views(final(list)@) == views(old(list)@).push(word(text@)),
{
    broadcast use group_views;

    list.push(text.as_bytes_vec());
}

fn push_reference(list: &mut Vec<Vec<u8>>, comparison: GitComparison)
    ensures
        views(final(list)@) == views(old(list)@).push(reference(comparison)),
{
    match comparison {
        GitComparison::WorkingTree => push_word(list, "HEAD"),
        GitComparison::Unpushed => push_word(list, "@{upstream}..HEAD"),
    }
}

/// The Git arguments that ask the question.
pub fn arguments_of(question: GitQuestion) -> (arguments: Vec<Vec<u8>>)
    ensures
        views(arguments@) == question_arguments(question),
{
    broadcast use group_views;

    let mut list: Vec<Vec<u8>> = Vec::new();
    match question {
        GitQuestion::Head => {
            push_word(&mut list, "rev-parse");
            push_word(&mut list, "--verify");
            push_word(&mut list, "HEAD");
        },
        GitQuestion::Upstream => {
            push_word(&mut list, "rev-parse");
            push_word(&mut list, "--verify");
            push_word(&mut list, "--abbrev-ref");
            push_word(&mut list, "@{upstream}");
        },
        GitQuestion::Changes(comparison) => {
            push_word(&mut list, "diff");
            push_word(&mut list, "--relative");
            push_word(&mut list, "--name-status");
            push_word(&mut list, "-z");
            push_word(&mut list, "--find-renames");
            push_word(&mut list, "--no-ext-diff");
            push_word(&mut list, "--no-textconv");
            push_reference(&mut list, comparison);
            push_word(&mut list, "--");
        },
        GitQuestion::States => {
            push_word(&mut list, "status");
            push_word(&mut list, "--porcelain=v1");
            push_word(&mut list, "-z");
            push_word(&mut list, "--untracked-files=all");
            push_word(&mut list, "--");
        },
        GitQuestion::Untracked => {
            push_word(&mut list, "ls-files");
            push_word(&mut list, "--others");
            push_word(&mut list, "--exclude-standard");
            push_word(&mut list, "-z");
            push_word(&mut list, "--");
        },
        GitQuestion::UnpushedCount => {
            push_word(&mut list, "rev-list");
            push_word(&mut list, "--count");
            push_word(&mut list, "@{upstream}..HEAD");
        },
    }
    list
}

fn show_arguments(root: &[u8], change: &GitChange) -> (arguments: Vec<Vec<u8>>)
    ensures
        views(arguments@) == diff_arguments(root@, change@),
{
    broadcast use group_views;

    let mut list: Vec<Vec<u8>> = Vec::new();
    push_word(&mut list, "diff");
    if change.untracked {
        push_word(&mut list, "--no-index");
        push_word(&mut list, "--no-ext-diff");
        push_word(&mut list, "--no-textconv");
        push_word(&mut list, "--no-color");
        push_word(&mut list, "--unified=3");
        push_word(&mut list, "--");
        push_word(&mut list, "/dev/null");
        list.push(join(root, &change.path));
    } else {
        push_word(&mut list, "--no-ext-diff");
        push_word(&mut list, "--no-textconv");
        push_word(&mut list, "--no-color");
        push_word(&mut list, "--find-renames");
        push_word(&mut list, "--unified=3");
        push_reference(&mut list, change.comparison);
        push_word(&mut list, "--");
        list.push(copy_path(&change.path));
    }
    list
}

/// All that is handed to Git.
pub fn git_command(directory: &[u8], arguments: Vec<Vec<u8>>) -> (command: GitCommand)
    ensures
        command@ == invocation(directory@, views(arguments@)),
{
    broadcast use group_views;

    let mut list: Vec<Vec<u8>> = Vec::new();
    let ghost tail = views(arguments@);
    push_word(&mut list, "-c");
    let mut trusted: Vec<u8> = "safe.directory=".as_bytes_vec();
    let mut copy = copy_bytes(directory, 0, directory.len());
    let again = copy_bytes(directory, 0, directory.len());
    proof {
        assert(copy@ =~= directory@);
        assert(again@ =~= directory@);
    }
    trusted.append(&mut copy);
    list.push(trusted);
    push_word(&mut list, "-C");
    list.push(again);
    let ghost head = views(list@);
    let mut rest = arguments;
    list.append(&mut rest);
    proof {
        assert(views(list@) =~= head + tail);
        assert(views(list@) =~= invocation(directory@, tail).arguments);
    }
    let mut environment: Vec<(Vec<u8>, Vec<u8>)> = Vec::new();
    environment.push(("GIT_OPTIONAL_LOCKS".as_bytes_vec(), "0".as_bytes_vec()));
    environment.push(("GIT_TERMINAL_PROMPT".as_bytes_vec(), "0".as_bytes_vec()));
    proof {
        assert(views(environment@) =~= seq![without_locks(), without_prompts()]);
    }
    GitCommand { arguments: list, environment }
}

proof fn lemma_invocation(directory: Seq<u8>, arguments: Seq<Seq<u8>>)
    requires
        arguments.len() > 0,
        reading_subcommand(arguments[0]),
    ensures
        only_reads(invocation(directory, arguments)),
{
    let command = invocation(directory, arguments);
    assert(command.arguments[4] == arguments[0]);
    assert(command.environment[0] == without_locks());
}

proof fn lemma_questions_only_read(question: GitQuestion)
    ensures
        question_arguments(question).len() > 0,
        reading_subcommand(question_arguments(question)[0]),
{
}

/// A Git command of the library changes nothing: its subcommand only reads, and
/// its environment keeps Git from taking the locks that it could do without.
pub proof fn law_git_commands_only_read(
    directory: Seq<u8>,
    question: GitQuestion,
    root: Seq<u8>,
    change: GitChangeView,
)
    ensures
        only_reads(invocation(directory, question_arguments(question))),
        only_reads(invocation(directory, diff_arguments(root, change))),
{
    lemma_questions_only_read(question);
    lemma_invocation(directory, question_arguments(question));
    lemma_invocation(directory, diff_arguments(root, change));
}

/// What Git has answered to a scan so far.
#[derive(Debug)]
pub struct GitRuns {
    pub head: Option<GitRun>,
    pub upstream: Option<GitRun>,
    pub changes: Option<GitRun>,
    pub states: Option<GitRun>,
    pub untracked: Option<GitRun>,
    pub unpushed_count: Option<GitRun>,
}

pub ghost struct GitRunsView {
    pub head: Option<GitRunView>,
    pub upstream: Option<GitRunView>,
    pub changes: Option<GitRunView>,
    pub states: Option<GitRunView>,
    pub untracked: Option<GitRunView>,
    pub unpushed_count: Option<GitRunView>,
}

impl View for GitRuns {
    type V = GitRunsView;

    open spec fn view(&self) -> GitRunsView {
        GitRunsView {
            head: option_view(self.head),
            upstream: option_view(self.upstream),
            changes: option_view(self.changes),
            states: option_view(self.states),
            untracked: option_view(self.untracked),
            unpushed_count: option_view(self.unpushed_count),
        }
    }
}

pub open spec fn no_runs() -> GitRunsView {
    GitRunsView {
        head: None,
        upstream: None,
        changes: None,
        states: None,
        untracked: None,
        unpushed_count: None,
    }
}

/// Whether the question has been answered.
pub open spec fn answered(runs: GitRunsView, question: GitQuestion) -> bool {
    match question {
        GitQuestion::Head => runs.head is Some,
        GitQuestion::Upstream => runs.upstream is Some,
        GitQuestion::Changes(_) => runs.changes is Some,
        GitQuestion::States => runs.states is Some,
        GitQuestion::Untracked => runs.untracked is Some,
        GitQuestion::UnpushedCount => runs.unpushed_count is Some,
    }
}

pub open spec fn with_answer(
    runs: GitRunsView,
    question: GitQuestion,
    run: GitRunView,
) -> GitRunsView {
    match question {
        GitQuestion::Head => GitRunsView { head: Some(run), ..runs },
        GitQuestion::Upstream => GitRunsView { upstream: Some(run), ..runs },
        GitQuestion::Changes(_) => GitRunsView { changes: Some(run), ..runs },
        GitQuestion::States => GitRunsView { states: Some(run), ..runs },
        GitQuestion::Untracked => GitRunsView { untracked: Some(run), ..runs },
        GitQuestion::UnpushedCount => GitRunsView { unpushed_count: Some(run), ..runs },
    }
}

impl GitRuns {
    pub fn new() -> (runs: GitRuns)
        ensures
            runs@ == no_runs(),
    {
        GitRuns {
            head: None,
            upstream: None,
            changes: None,
            states: None,
            untracked: None,
            unpushed_count: None,
        }
    }

    /// Notes what Git answered.
    pub fn answer(&mut self, question: GitQuestion, run: GitRun)
        ensures
            final(self)@ == with_answer(old(self)@, question, run@),
    {
        match question {
            GitQuestion::Head => {
                self.head = Some(run);
            },
            GitQuestion::Upstream => {
                self.upstream = Some(run);
            },
            GitQuestion::Changes(_) => {
                self.changes = Some(run);
            },
            GitQuestion::States => {
                self.states = Some(run);
            },
            GitQuestion::Untracked => {
                self.untracked = Some(run);
            },
            GitQuestion::UnpushedCount => {
                self.unpushed_count = Some(run);
            },
        }
    }
}

/// What a scan needs next, or what came of it.
#[derive(Debug)]
pub enum ScanStep {
    Ask(GitQuestion),
    Finished(Result<Vec<GitChange>, String>),
}

pub ghost enum ScanStepView {
    Ask(GitQuestion),
    Finished(Result<Seq<GitChangeView>, Seq<char>>),
}

impl View for ScanStep {
    type V = ScanStepView;

    open spec fn view(&self) -> ScanStepView {
        match self {
            ScanStep::Ask(question) => ScanStepView::Ask(*question),
            ScanStep::Finished(result) => ScanStepView::Finished(changes_view(*result)),
        }
    }
}

/// The changes that a scan reports: those in scope, by path.
pub open spec fn reported(
    changes: Seq<GitChangeView>,
    scope: Option<ScopeView>,
    root: Seq<u8>,
) -> Seq<GitChangeView> {
    by_path(scoped_changes(changes, scope, root))
}

/// A scan of the working tree once the tracked changes are known.
pub open spec fn working_tree_step(
    changes: Seq<GitChangeView>,
    runs: GitRunsView,
    scope: Option<ScopeView>,
    root: Seq<u8>,
) -> ScanStepView {
    match runs.states {
        None => ScanStepView::Ask(GitQuestion::States),
        Some(run) => match checked_output(run, "Git status failed"@, "Git status"@) {
            Err(message) => ScanStepView::Finished(Err(message)),
            Ok(listing) => match porcelain(split(listing, 0), Map::empty()) {
                Err(message) => ScanStepView::Finished(Err(message)),
                Ok(statuses) => match runs.untracked {
                    None => ScanStepView::Ask(GitQuestion::Untracked),
                    Some(run) => match checked_output(
                        run,
                        "Git untracked-file scan failed"@,
                        "Git untracked-file scan"@,
                    ) {
                        Err(message) => ScanStepView::Finished(Err(message)),
                        Ok(names) => {
                            let known = with_states(changes, statuses);
                            ScanStepView::Finished(
                                Ok(
                                    reported(
                                        known + untracked_changes(split(names, 0), known),
                                        scope,
                                        root,
                                    ),
                                ),
                            )
                        },
                    },
                },
            },
        },
    }
}

/// A scan once there is something to compare with.
pub open spec fn changes_step(
    comparison: GitComparison,
    runs: GitRunsView,
    scope: Option<ScopeView>,
    root: Seq<u8>,
) -> ScanStepView {
    match runs.changes {
        None => ScanStepView::Ask(GitQuestion::Changes(comparison)),
        Some(run) => match checked_output(run, "Git status failed"@, "Git status"@) {
            Err(message) => ScanStepView::Finished(Err(message)),
            Ok(listing) => match name_status(split(listing, 0), comparison) {
                Err(message) => ScanStepView::Finished(Err(message)),
                Ok(changes) => match comparison {
                    GitComparison::WorkingTree => working_tree_step(changes, runs, scope, root),
                    GitComparison::Unpushed => ScanStepView::Finished(
                        Ok(reported(changes, scope, root)),
                    ),
                },
            },
        },
    }
}

/// What a scan needs next, or what came of it, given what Git has answered.
pub open spec fn scan_step(
    comparison: GitComparison,
    runs: GitRunsView,
    scope: Option<ScopeView>,
    root: Seq<u8>,
) -> ScanStepView {
    match runs.head {
        None => ScanStepView::Ask(GitQuestion::Head),
        Some(run) => match head_problem(run) {
            Some(message) => ScanStepView::Finished(Err(message)),
            None => match comparison {
                GitComparison::WorkingTree => changes_step(comparison, runs, scope, root),
                GitComparison::Unpushed => match runs.upstream {
                    None => ScanStepView::Ask(GitQuestion::Upstream),
                    Some(run) => match upstream_problem(run) {
                        Some(message) => ScanStepView::Finished(Err(message)),
                        None => changes_step(comparison, runs, scope, root),
                    },
                },
            },
        },
    }
}

fn scan_working_tree(
    changes: Vec<GitChange>,
    runs: &GitRuns,
    scope: &Option<ProjectScope>,
    root: &[u8],
) -> (step: ScanStep)
    ensures
        step@ == working_tree_step(views(changes@), runs@, option_view(*scope), root@),
{
    let run = match &runs.states {
        None => {
            return ScanStep::Ask(GitQuestion::States);
        },
        Some(run) => run,
    };
    let listing = match checked_stdout(run, "Git status failed", "Git status") {
        Err(message) => {
            return ScanStep::Finished(Err(message));
        },
        Ok(listing) => listing,
    };
    let statuses = match parse_porcelain_status(listing) {
        Err(message) => {
            return ScanStep::Finished(Err(message));
        },
        Ok(statuses) => statuses,
    };
    let run = match &runs.untracked {
        None => {
            return ScanStep::Ask(GitQuestion::Untracked);
        },
        Some(run) => run,
    };
    let names = match checked_stdout(
        run,
        "Git untracked-file scan failed",
        "Git untracked-file scan",
    ) {
        Err(message) => {
            return ScanStep::Finished(Err(message));
        },
        Ok(names) => names,
    };
    let mut known = assign_states(changes, &statuses);
    let mut untracked = find_untracked(names, &known);
    let ghost first = views(known@);
    let ghost second = views(untracked@);
    known.append(&mut untracked);
    proof {
        assert(views(known@) =~= first + second);
    }
    let scoped = retain_scoped(known, scope, root);
    ScanStep::Finished(Ok(sort_by_path(scoped)))
}

fn scan_changes(
    comparison: GitComparison,
    runs: &GitRuns,
    scope: &Option<ProjectScope>,
    root: &[u8],
) -> (step: ScanStep)
    ensures
        step@ == changes_step(comparison, runs@, option_view(*scope), root@),
{
    let run = match &runs.changes {
        None => {
            return ScanStep::Ask(GitQuestion::Changes(comparison));
        },
        Some(run) => run,
    };
    let listing = match checked_stdout(run, "Git status failed", "Git status") {
        Err(message) => {
            return ScanStep::Finished(Err(message));
        },
        Ok(listing) => listing,
    };
    let changes = match parse_name_status(listing, comparison) {
        Err(message) => {
            return ScanStep::Finished(Err(message));
        },
        Ok(changes) => changes,
    };
    match comparison {
        GitComparison::WorkingTree => scan_working_tree(changes, runs, scope, root),
        GitComparison::Unpushed => {
            let scoped = retain_scoped(changes, scope, root);
            ScanStep::Finished(Ok(sort_by_path(scoped)))
        },
    }
}

/// What a scan needs next, or what came of it, given what Git has answered.
pub fn scan(
    root: &[u8],
    comparison: GitComparison,
    scope: &Option<ProjectScope>,
    runs: &GitRuns,
) -> (step: ScanStep)
    ensures
        step@ == scan_step(comparison, runs@, option_view(*scope), root@),
{
    let run = match &runs.head {
        None => {
            return ScanStep::Ask(GitQuestion::Head);
        },
        Some(run) => run,
    };
    if let Err(message) = ensure_head(run) {
        return ScanStep::Finished(Err(message));
    }
    if let GitComparison::Unpushed = comparison {
        let run = match &runs.upstream {
            None => {
                return ScanStep::Ask(GitQuestion::Upstream);
            },
            Some(run) => run,
        };
        if let Err(message) = ensure_upstream(run) {
            return ScanStep::Finished(Err(message));
        }
    }
    scan_changes(comparison, runs, scope, root)
}

/// What counting the unpushed commits needs next, or the count.
#[derive(Clone, Copy, Debug, PartialEq, Eq, Structural)]
pub enum CountStep {
    Ask(GitQuestion),
    Finished(Option<usize>),
}

/// The standard output of a process that went well.
pub open spec fn good_output(run: GitRunView) -> Option<Seq<u8>> {
    match run {
        GitRunView::Finished(output) if output.success => Some(output.stdout),
        _ => None,
    }
}

/// The number that bytes of text write, white space round it aside.
pub open spec fn counted(bytes: Seq<u8>) -> Option<usize> {
    if valid_utf8(bytes) {
        parsed_number(trim(decode_utf8(bytes)))
    } else {
        None
    }
}

pub open spec fn count_step(runs: GitRunsView) -> CountStep {
    match runs.upstream {
        None => CountStep::Ask(GitQuestion::Upstream),
        Some(run) => match good_output(run) {
            None => CountStep::Finished(None),
            Some(_) => match runs.unpushed_count {
                None => CountStep::Ask(GitQuestion::UnpushedCount),
                Some(run) => match good_output(run) {
                    None => CountStep::Finished(None),
                    Some(bytes) => CountStep::Finished(counted(bytes)),
                },
            },
        },
    }
}

fn good_stdout(run: &GitRun) -> (bytes: Option<&Vec<u8>>)
    ensures
        (match bytes {
            Some(bytes) => Some(bytes@),
            None => None,
        }) == good_output(run@),
{
    match run {
        GitRun::NotStarted(_) => None,
        GitRun::Finished(output) => if output.success {
            Some(&output.stdout)
        } else {
            None
        },
    }
}

/// How many commits the tracked remote branch lacks, given what Git has
/// answered; `None` where that cannot be told.
pub fn unpushed_commit_count(runs: &GitRuns) -> (step: CountStep)
    ensures
        step == count_step(runs@),
{
    let upstream = match &runs.upstream {
        None => {
            return CountStep::Ask(GitQuestion::Upstream);
        },
        Some(run) => run,
    };
    if good_stdout(upstream).is_none() {
        return CountStep::Finished(None);
    }
    let run = match &runs.unpushed_count {
        None => {
            return CountStep::Ask(GitQuestion::UnpushedCount);
        },
        Some(run) => run,
    };
    match good_stdout(run) {
        None => CountStep::Finished(None),
        Some(bytes) => match utf8_text(bytes) {
            None => CountStep::Finished(None),
            Some(text) => {
                let chars = to_chars(text.as_str());
                let number = trimmed(&chars);
                CountStep::Finished(parse_number(&number))
            },
        },
    }
}

/// What showing a change needs next, or what came of it.
#[derive(Debug)]
pub enum DiffStep {
    Run(Vec<Vec<u8>>),
    Finished(Result<Vec<DiffLine>, String>),
}

pub ghost enum DiffStepView {
    Run(Seq<Seq<u8>>),
    Finished(Result<Seq<DiffLineView>, Seq<char>>),
}

impl View for DiffStep {
    type V = DiffStepView;

    open spec fn view(&self) -> DiffStepView {
        match self {
            DiffStep::Run(arguments) => DiffStepView::Run(views(arguments@)),
            DiffStep::Finished(Ok(lines)) => DiffStepView::Finished(Ok(views(lines@))),
            DiffStep::Finished(Err(message)) => DiffStepView::Finished(Err(message@)),
        }
    }
}

/// The lines that the output of a diff shows. Git leaves with code 1 where the
/// two sides differ.
pub open spec fn shown_diff(run: GitRunView) -> Result<Seq<DiffLineView>, Seq<char>> {
    match run {
        GitRunView::NotStarted(error) => Err("Unable to run Git diff: "@ + error),
        GitRunView::Finished(output) => if over_limit(output.stdout) {
            Err(limit_message("Git diff"@))
        } else if !output.success && output.code != Some(1i32) {
            Err(failure_message(output.stderr, "Git diff failed"@))
        } else if !valid_utf8(output.stdout) {
            Err("Git diff contains non-UTF-8 output."@)
        } else {
            Ok(unified_lines(decode_utf8(output.stdout)))
        },
    }
}

pub open spec fn diff_step(
    root: Seq<u8>,
    change: GitChangeView,
    run: Option<GitRunView>,
) -> DiffStepView {
    match run {
        None => DiffStepView::Run(diff_arguments(root, change)),
        Some(run) => DiffStepView::Finished(shown_diff(run)),
    }
}

/// What showing a change needs next, or its lines, given what Git has answered.
pub fn diff(root: &[u8], change: &GitChange, run: &Option<GitRun>) -> (step: DiffStep)
    ensures
        step@ == diff_step(root@, change@, option_view(*run)),
{
    let output = match run {
        None => {
            return DiffStep::Run(show_arguments(root, change));
        },
        Some(GitRun::NotStarted(error)) => {
            return DiffStep::Finished(Err(not_run("Unable to run Git diff: ", error)));
        },
        Some(GitRun::Finished(output)) => output,
    };
    if let Err(message) = ensure_output_limit(&output.stdout, "Git diff") {
        return DiffStep::Finished(Err(message));
    }
    let differs = match output.code {
        Some(code) => code == 1,
        None => false,
    };
    if !output.success && !differs {
        return DiffStep::Finished(Err(command_error(&output.stderr, "Git diff failed")));
    }
    match utf8_text(&output.stdout) {
        None => DiffStep::Finished(Err("Git diff contains non-UTF-8 output.".to_owned())),
        Some(text) => DiffStep::Finished(Ok(parse_unified_diff(text.as_str()))),
    }
}

/// A scan asks no question twice, so it ends after as many answers as there are
/// questions.
pub proof fn law_scan_asks_once(
    comparison: GitComparison,
    runs: GitRunsView,
    scope: Option<ScopeView>,
    root: Seq<u8>,
)
    ensures
        scan_step(comparison, runs, scope, root) matches ScanStepView::Ask(question) ==> !answered(
            runs,
            question,
        ),
        count_step(runs) matches CountStep::Ask(question) ==> !answered(runs, question),
{
}

/// The reported changes stand by path, and none is lost or added.
pub proof fn law_changes_are_sorted(changes: Seq<GitChangeView>)
    ensures
        by_path(changes).len() == changes.len(),
        forall|change: GitChangeView|
            #[trigger] by_path(changes).contains(change) <==> changes.contains(change),
        forall|i: int, j: int|
            #![trigger by_path(changes)[i], by_path(changes)[j]]
            0 <= i < j < changes.len() ==> !parts_before(
                components(by_path(changes)[j].path),
                components(by_path(changes)[i].path),
            ),
{
    let keys = change_paths(changes);
    let indices = order(keys);
    let sorted = by_path(changes);
    law_order_is_sorted(keys);
    assert forall|i: int| 0 <= i < indices.len() implies 0 <= #[trigger] indices[i]
        < changes.len() by {
        assert(indices.contains(indices[i]));
    }
    assert forall|change: GitChangeView| #[trigger] sorted.contains(change)
        <==> changes.contains(change) by {
        if sorted.contains(change) {
            let k = sorted.index_of(change);
            assert(changes[indices[k]] == change);
        }
        if changes.contains(change) {
            let k = changes.index_of(change);
            assert(indices.contains(k));
            let m = indices.index_of(k);
            assert(sorted[m] == change);
        }
    }
    assert forall|i: int, j: int|
        #![trigger sorted[i], sorted[j]]
        0 <= i < j < changes.len() implies !parts_before(
        components(sorted[j].path),
        components(sorted[i].path),
    ) by {
        assert(!key_before(keys, indices[j], indices[i]));
    }
}

/// The words with a zero byte behind each, as Git writes a listing with `-z`.
pub open spec fn zero_ended(words: Seq<Seq<u8>>) -> Seq<u8>
    decreases words.len(),
{
    if words.len() == 0 {
        Seq::empty()
    } else {
        words[0] + seq![0u8] + zero_ended(words.skip(1))
    }
}

pub open spec fn zero_free(word: Seq<u8>) -> bool {
    forall|i: int| 0 <= i < word.len() ==> word[i] != 0u8
}

proof fn lemma_zero_ended(words: Seq<Seq<u8>>)
    requires
        forall|i: int| 0 <= i < words.len() ==> zero_free(#[trigger] words[i]),
    ensures
        split(zero_ended(words), 0u8) == words.push(Seq::empty()),
    decreases words.len(),
{
    if words.len() == 0 {
        lemma_split_single(Seq::<u8>::empty(), 0u8);
        assert(split(zero_ended(words), 0u8) =~= words.push(Seq::empty()));
    } else {
        let rest = words.skip(1);
        assert(zero_free(words[0]));
        assert forall|i: int| 0 <= i < rest.len() implies zero_free(#[trigger] rest[i]) by {
            assert(rest[i] == words[i + 1]);
        }
        lemma_zero_ended(rest);
        lemma_split_after(words[0], zero_ended(rest), 0u8);
        assert(seq![words[0]] + rest.push(Seq::empty()) =~= words.push(Seq::empty()));
    }
}

/// A record of a listing of names and statuses: the status, a letter with perhaps a
/// score behind it, and the path; of a rename or a copy the former path too.
pub ghost struct NameRecord {
    pub status: Seq<u8>,
    pub old_path: Option<Seq<u8>>,
    pub path: Seq<u8>,
}

impl NameRecord {
    pub open spec fn well_formed(self) -> bool {
        &&& self.status.len() > 0
        &&& zero_free(self.status)
        &&& zero_free(self.path)
        &&& self.old_path is Some <==> self.status[0] == 'R' as u8 || self.status[0] == 'C' as u8
        &&& self.old_path matches Some(old) ==> zero_free(old)
    }

    pub open spec fn words(self) -> Seq<Seq<u8>> {
        match self.old_path {
            Some(old) => seq![self.status, old, self.path],
            None => seq![self.status, self.path],
        }
    }

    /// What the status letter tells of the file; a copy is a new file.
    pub open spec fn tells(self, kind: ChangeKind) -> bool {
        let letter = self.status[0];
        &&& kind == ChangeKind::Added <==> letter == 'A' as u8 || letter == 'C' as u8
        &&& kind == ChangeKind::Deleted <==> letter == 'D' as u8
        &&& kind == ChangeKind::Renamed <==> letter == 'R' as u8
    }

    /// Whether the change is the one that the record tells of, wherever its edits
    /// stand.
    pub open spec fn is_told_by(self, change: GitChangeView, comparison: GitComparison) -> bool {
        &&& change.path == self.path
        &&& change.old_path == self.old_path
        &&& self.tells(change.kind)
        &&& !change.untracked
        &&& change.comparison == comparison
    }
}

pub open spec fn name_words(records: Seq<NameRecord>) -> Seq<Seq<u8>>
    decreases records.len(),
{
    if records.len() == 0 {
        Seq::empty()
    } else {
        records[0].words() + name_words(records.skip(1))
    }
}

pub open spec fn all_records(records: Seq<NameRecord>) -> bool {
    forall|i: int| 0 <= i < records.len() ==> (#[trigger] records[i]).well_formed()
}

proof fn lemma_name_words(records: Seq<NameRecord>)
    requires
        all_records(records),
    ensures
        forall|i: int|
            0 <= i < name_words(records).len() ==> zero_free(#[trigger] name_words(records)[i]),
    decreases records.len(),
{
    if records.len() > 0 {
        let first = records[0].words();
        let rest = name_words(records.skip(1));
        assert(records[0].well_formed());
        assert(all_records(records.skip(1))) by {
            assert forall|i: int| 0 <= i < records.skip(1).len() implies (
            #[trigger] records.skip(1)[i]).well_formed() by {
                assert(records.skip(1)[i] == records[i + 1]);
            }
        }
        lemma_name_words(records.skip(1));
        let all = name_words(records);
        assert forall|i: int| 0 <= i < all.len() implies zero_free(#[trigger] all[i]) by {
            if i < first.len() {
                assert(all[i] == first[i]);
            } else {
                assert(all[i] == rest[i - first.len()]);
            }
        }
    }
}

proof fn lemma_names_read(records: Seq<NameRecord>, comparison: GitComparison)
    requires
        all_records(records),
    ensures
        ({
            let fields = name_words(records).push(Seq::empty());
            &&& name_status(fields, comparison) matches Ok(changes)
            &&& changes.len() == records.len()
            &&& forall|i: int|
                0 <= i < records.len() ==> {
                    let change = #[trigger] changes[i];
                    &&& records[i].is_told_by(change, comparison)
                    &&& change.state == first_state(comparison)
                }
        }),
    decreases records.len(),
{
    let fields = name_words(records).push(Seq::empty());
    if records.len() > 0 {
        let record = records[0];
        let rest = records.skip(1);
        assert(record.well_formed());
        assert(all_records(rest)) by {
            assert forall|i: int| 0 <= i < rest.len() implies (
            #[trigger] rest[i]).well_formed() by {
                assert(rest[i] == records[i + 1]);
            }
        }
        lemma_names_read(rest, comparison);
        let tail = name_words(rest).push(Seq::empty());
        let width = record.words().len() as int;
        assert(fields.skip(width) =~= tail);
        assert(fields[0] == record.words()[0]);
        assert(fields[1] == record.words()[1]);
        if record.old_path is Some {
            assert(fields[2] == record.words()[2]);
        }
        let changes = name_status(fields, comparison)->Ok_0;
        let later = name_status(tail, comparison)->Ok_0;
        assert forall|i: int| 0 <= i < records.len() implies ({
            let change = #[trigger] changes[i];
            &&& records[i].is_told_by(change, comparison)
            &&& change.state == first_state(comparison)
        }) by {
            if i > 0 {
                assert(changes[i] == later[i - 1]);
                assert(rest[i - 1] == records[i]);
            }
        }
    }
}

/// A listing of names and statuses is read as it was written: for every record, in
/// order, the change that it tells of, and no other change. What is not pushed
/// counts as committed.
pub proof fn law_name_status_is_read_back(records: Seq<NameRecord>, comparison: GitComparison)
    requires
        all_records(records),
    ensures
        ({
            let listing = zero_ended(name_words(records));
            &&& name_status(split(listing, 0), comparison) matches Ok(changes)
            &&& changes.len() == records.len()
            &&& forall|i: int|
                0 <= i < records.len() ==> {
                    let change = #[trigger] changes[i];
                    &&& records[i].is_told_by(change, comparison)
                    &&& comparison == GitComparison::Unpushed <==> change.state
                        == GitFileState::Committed
                }
        }),
{
    lemma_name_words(records);
    lemma_zero_ended(name_words(records));
    lemma_names_read(records, comparison);
}

/// A run of Git that went well and wrote the output.
pub open spec fn wrote(run: Option<GitRunView>, output: Seq<u8>) -> bool {
    run matches Some(GitRunView::Finished(result)) && result.success && result.stdout == output
}

/// Whether the changes stand by path.
pub open spec fn stand_by_path(changes: Seq<GitChangeView>) -> bool {
    forall|i: int, j: int|
        #![trigger changes[i], changes[j]]
        0 <= i < j < changes.len() ==> !parts_before(
            components(changes[j].path),
            components(changes[i].path),
        )
}

/// Whether the scope holds the change's path or the path that it had.
pub open spec fn either_path_in_scope(
    view: ScopeView,
    root: Seq<u8>,
    change: GitChangeView,
) -> bool {
    ||| absolute_in_scope(view, joined(root, change.path), false)
    ||| change.old_path is Some && absolute_in_scope(
        view,
        joined(root, change.old_path->0),
        false,
    )
}

/// Whether the result is made of the changes, each as often as it is among them, by
/// path: of all of them where there is no scope, else of those in it.
pub open spec fn reports_all(
    result: Seq<GitChangeView>,
    changes: Seq<GitChangeView>,
    scope: Option<ScopeView>,
    root: Seq<u8>,
) -> bool {
    &&& stand_by_path(result)
    &&& scope is None ==> result.to_multiset() == changes.to_multiset()
    &&& scope matches Some(view) ==> result.to_multiset() == changes.filter(
        |change: GitChangeView| either_path_in_scope(view, root, change),
    ).to_multiset()
}

proof fn lemma_reported(changes: Seq<GitChangeView>, scope: Option<ScopeView>, root: Seq<u8>)
    ensures
        reports_all(reported(changes, scope, root), changes, scope, root),
{
    let kept = scoped_changes(changes, scope, root);
    law_changes_are_sorted(kept);
    law_sorting_keeps_every_item(kept, change_paths(kept));
    if let Some(view) = scope {
        let a = |change: GitChangeView| change_in_scope(view, root, change);
        let b = |change: GitChangeView| either_path_in_scope(view, root, change);
        assert(a =~= b);
    }
}

/// A scan of what is not pushed reports what Git lists: for every record its change,
/// as committed, and nothing else, by path; of a project view, what is in it.
pub proof fn law_unpushed_scan_reports_every_record(
    records: Seq<NameRecord>,
    runs: GitRunsView,
    scope: Option<ScopeView>,
    root: Seq<u8>,
) -> (changes: Seq<GitChangeView>)
    requires
        all_records(records),
        runs.head matches Some(GitRunView::Finished(run)) && run.success,
        runs.upstream matches Some(GitRunView::Finished(run)) && run.success,
        wrote(runs.changes, zero_ended(name_words(records))),
        zero_ended(name_words(records)).len() <= 32 * 1024 * 1024,
    ensures
        changes.len() == records.len(),
        forall|i: int|
            0 <= i < records.len() ==> {
                let change = #[trigger] changes[i];
                &&& records[i].is_told_by(change, GitComparison::Unpushed)
                &&& change.state == GitFileState::Committed
            },
        scan_step(GitComparison::Unpushed, runs, scope, root) matches ScanStepView::Finished(
            Ok(result),
        ) && reports_all(result, changes, scope, root),
{
    let listing = zero_ended(name_words(records));
    law_name_status_is_read_back(records, GitComparison::Unpushed);
    let changes = name_status(split(listing, 0), GitComparison::Unpushed)->Ok_0;
    lemma_reported(changes, scope, root);
    changes
}

/// A record of a listing of states: the column of the index, that of the working
/// tree, and the path; of a rename or a copy the former path too.
pub ghost struct StatusRecord {
    pub index: u8,
    pub worktree: u8,
    pub path: Seq<u8>,
    pub old_path: Option<Seq<u8>>,
}

impl StatusRecord {
    pub open spec fn well_formed(self) -> bool {
        &&& self.index != 0
        &&& self.worktree != 0
        &&& zero_free(self.path)
        &&& self.old_path is Some <==> self.index == 'R' as u8 || self.index == 'C' as u8
            || self.worktree == 'R' as u8 || self.worktree == 'C' as u8
        &&& self.old_path matches Some(old) ==> zero_free(old) && old.len() > 0
    }

    pub open spec fn words(self) -> Seq<Seq<u8>> {
        let first = seq![self.index, self.worktree, ' ' as u8] + self.path;
        match self.old_path {
            Some(old) => seq![first, old],
            None => seq![first],
        }
    }

    /// Whether the record is about the path, or was.
    pub open spec fn names(self, path: Seq<u8>) -> bool {
        ||| components(self.path) == components(path)
        ||| self.old_path is Some && components(self.old_path->0) == components(path)
    }
}

/// What the columns tell of where edits stand, whatever letters they hold: it matters
/// which of them are blank, and two question marks stand for what is not tracked.
pub open spec fn columns_tell(index: u8, worktree: u8, state: GitFileState) -> bool {
    let unknown = index == '?' as u8 && worktree == '?' as u8;
    let blank = ' ' as u8;
    &&& state == GitFileState::Untracked <==> unknown
    &&& state == GitFileState::Unstaged <==> index == blank
    &&& state == GitFileState::Staged <==> index != blank && worktree == blank
    &&& state == GitFileState::StagedAndUnstaged <==> index != blank && worktree != blank
        && !unknown
}

/// A path's state follows from which columns of its record are blank: an edit that is
/// not in the index is unstaged, one that is there and nowhere else is staged, and two
/// records with the same columns blank have the same state.
pub proof fn law_states_follow_from_blank_columns(
    index: u8,
    worktree: u8,
    other_index: u8,
    other_worktree: u8,
)
    ensures
        columns_tell(index, worktree, column_state(index, worktree)),
        ({
            let blank = ' ' as u8;
            let mark = '?' as u8;
            &&& !(index == mark && worktree == mark)
            &&& !(other_index == mark && other_worktree == mark)
            &&& (index == blank) == (other_index == blank)
            &&& (worktree == blank) == (other_worktree == blank)
        }) ==> column_state(index, worktree) == column_state(other_index, other_worktree),
{
}

pub open spec fn status_words(records: Seq<StatusRecord>) -> Seq<Seq<u8>>
    decreases records.len(),
{
    if records.len() == 0 {
        Seq::empty()
    } else {
        records[0].words() + status_words(records.skip(1))
    }
}

pub open spec fn all_statuses(records: Seq<StatusRecord>) -> bool {
    forall|i: int| 0 <= i < records.len() ==> (#[trigger] records[i]).well_formed()
}

/// Whether the record at `k` is the last that names the path.
pub open spec fn last_names(records: Seq<StatusRecord>, k: int, path: Seq<u8>) -> bool {
    &&& 0 <= k < records.len()
    &&& records[k].names(path)
    &&& forall|j: int| k < j < records.len() ==> !(#[trigger] records[j]).names(path)
}

pub open spec fn none_names(records: Seq<StatusRecord>, path: Seq<u8>) -> bool {
    forall|j: int| 0 <= j < records.len() ==> !(#[trigger] records[j]).names(path)
}

proof fn lemma_later_statuses(records: Seq<StatusRecord>)
    requires
        all_statuses(records),
        records.len() > 0,
    ensures
        all_statuses(records.skip(1)),
        records[0].well_formed(),
{
    let rest = records.skip(1);
    assert forall|i: int| 0 <= i < rest.len() implies (#[trigger] rest[i]).well_formed() by {
        assert(rest[i] == records[i + 1]);
    }
}

proof fn lemma_status_words(records: Seq<StatusRecord>)
    requires
        all_statuses(records),
    ensures
        forall|i: int|
            0 <= i < status_words(records).len() ==> zero_free(
                #[trigger] status_words(records)[i],
            ),
    decreases records.len(),
{
    if records.len() > 0 {
        let first = records[0].words();
        let rest = status_words(records.skip(1));
        lemma_later_statuses(records);
        lemma_status_words(records.skip(1));
        let all = status_words(records);
        assert(zero_free(first[0]));
        assert forall|i: int| 0 <= i < all.len() implies zero_free(#[trigger] all[i]) by {
            if i < first.len() {
                assert(all[i] == first[i]);
            } else {
                assert(all[i] == rest[i - first.len()]);
            }
        }
    }
}

proof fn lemma_statuses_read(records: Seq<StatusRecord>, known: StatusMap, path: Seq<u8>)
    requires
        all_statuses(records),
    ensures
        ({
            let fields = status_words(records).push(Seq::empty());
            let key = components(path);
            &&& porcelain(fields, known) matches Ok(found)
            &&& none_names(records, path) ==> {
                &&& found.dom().contains(key) == known.dom().contains(key)
                &&& found[key] == known[key]
            }
            &&& forall|k: int|
                #![trigger records[k]]
                last_names(records, k, path) ==> found.dom().contains(key) && found[key]
                    == column_state(records[k].index, records[k].worktree)
        }),
    decreases records.len(),
{
    let fields = status_words(records).push(Seq::empty());
    let key = components(path);
    if records.len() > 0 {
        let record = records[0];
        let rest = records.skip(1);
        lemma_later_statuses(records);
        let first = record.words();
        let tail = status_words(rest).push(Seq::empty());
        let state = column_state(record.index, record.worktree);
        assert(fields.skip(first.len() as int) =~= tail);
        assert(fields[0] == first[0]);
        assert(fields[0].skip(3) =~= record.path);
        let with_path = known.insert(components(record.path), state);
        let after = match record.old_path {
            Some(old) => with_path.insert(components(old), state),
            None => with_path,
        };
        if record.old_path is Some {
            assert(fields[1] == first[1]);
        }
        assert(porcelain(fields, known) == porcelain(tail, after));
        lemma_statuses_read(rest, after, path);
        let found = porcelain(fields, known)->Ok_0;
        if none_names(rest, path) {
            if record.names(path) {
                assert(after[key] == state);
            }
        }
        if none_names(records, path) {
            assert(!record.names(path));
            assert forall|j: int| 0 <= j < rest.len() implies !(#[trigger] rest[j]).names(path) by {
                assert(rest[j] == records[j + 1]);
            }
        }
        assert forall|k: int|
            #![trigger records[k]]
            last_names(records, k, path) implies found.dom().contains(key) && found[key]
            == column_state(records[k].index, records[k].worktree) by {
            if k > 0 {
                assert(rest[k - 1] == records[k]);
                assert forall|j: int| k - 1 < j < rest.len() implies !(
                #[trigger] rest[j]).names(path) by {
                    assert(rest[j] == records[j + 1]);
                }
                assert(last_names(rest, k - 1, path));
            } else {
                assert forall|j: int| 0 <= j < rest.len() implies !(#[trigger] rest[j]).names(
                    path,
                ) by {
                    assert(rest[j] == records[j + 1]);
                }
            }
        }
    }
}

/// A listing of states is read as it was written: a path has the state that its last
/// record tells, and a path that no record names has none.
pub proof fn law_status_listing_is_read_back(records: Seq<StatusRecord>, path: Seq<u8>)
    requires
        all_statuses(records),
    ensures
        ({
            let listing = zero_ended(status_words(records));
            let key = components(path);
            &&& porcelain(split(listing, 0), Map::empty()) matches Ok(found)
            &&& none_names(records, path) <==> !found.dom().contains(key)
            &&& forall|k: int|
                #![trigger records[k]]
                last_names(records, k, path) ==> columns_tell(
                    records[k].index,
                    records[k].worktree,
                    found[key],
                )
        }),
{
    lemma_status_words(records);
    lemma_zero_ended(status_words(records));
    lemma_statuses_read(records, Map::empty(), path);
    if !none_names(records, path) {
        let k = lemma_some_last_name(records, path);
    }
}

proof fn lemma_some_last_name(records: Seq<StatusRecord>, path: Seq<u8>) -> (k: int)
    requires
        !none_names(records, path),
    ensures
        last_names(records, k, path),
    decreases records.len(),
{
    let last = records.len() - 1;
    if records.last().names(path) {
        assert(records[last].names(path));
        last
    } else {
        let front = records.drop_last();
        let i = choose|i: int| 0 <= i < records.len() && (#[trigger] records[i]).names(path);
        assert(front[i] == records[i]);
        let k = lemma_some_last_name(front, path);
        assert(records[k] == front[k]);
        assert forall|j: int| k < j < records.len() implies !(#[trigger] records[j]).names(
            path,
        ) by {
            if j < last {
                assert(front[j] == records[j]);
            }
        }
        k
    }
}

/// Whether a record of the names tells of the path.
pub open spec fn is_listed(records: Seq<NameRecord>, path: Seq<u8>) -> bool {
    exists|i: int|
        0 <= i < records.len() && (components((#[trigger] records[i]).path) == components(path) || (
        records[i].old_path is Some && components(records[i].old_path->0) == components(path)))
}

/// Whether the change tells of a file that Git does not track.
pub open spec fn is_new_file(change: GitChangeView, path: Seq<u8>) -> bool {
    &&& change.path == path
    &&& change.kind == ChangeKind::Added
    &&& change.old_path is None
    &&& change.untracked
    &&& change.comparison == GitComparison::WorkingTree
    &&& change.state == GitFileState::Untracked
}

proof fn lemma_untracked_read(
    names: Seq<Seq<u8>>,
    records: Seq<NameRecord>,
    known: Seq<GitChangeView>,
)
    requires
        forall|i: int| 0 <= i < names.len() ==> (#[trigger] names[i]).len() > 0,
        known.len() == records.len(),
        forall|i: int|
            0 <= i < records.len() ==> records[i].is_told_by(
                #[trigger] known[i],
                GitComparison::WorkingTree,
            ),
    ensures
        ({
            let kept = names.filter(|name: Seq<u8>| !is_listed(records, name));
            let found = untracked_changes(names.push(Seq::empty()), known);
            &&& found.len() == kept.len()
            &&& forall|i: int| 0 <= i < kept.len() ==> is_new_file(#[trigger] found[i], kept[i])
        }),
    decreases names.len(),
{
    reveal(Seq::filter);
    let test = |name: Seq<u8>| !is_listed(records, name);
    let all = names.push(Seq::empty());
    if names.len() == 0 {
        assert(all.skip(1) =~= Seq::empty());
        assert(untracked_changes(all.skip(1), known) =~= Seq::empty());
    } else {
        let rest = names.skip(1);
        assert forall|i: int| 0 <= i < rest.len() implies (#[trigger] rest[i]).len() > 0 by {
            assert(rest[i] == names[i + 1]);
        }
        lemma_untracked_read(rest, records, known);
        assert(all.skip(1) =~= rest.push(Seq::empty()));
        let first = names[0];
        assert(any_names_path(known, first) == is_listed(records, first)) by {
            if any_names_path(known, first) {
                let i = choose|i: int| 0 <= i < known.len() && names_path(#[trigger] known[i], first);
                assert(records[i].is_told_by(known[i], GitComparison::WorkingTree));
            }
            if is_listed(records, first) {
                let i = choose|i: int|
                    0 <= i < records.len() && (components((#[trigger] records[i]).path)
                        == components(first) || (records[i].old_path is Some && components(
                        records[i].old_path->0,
                    ) == components(first)));
                assert(names_path(known[i], first));
            }
        }
        assert(names =~= seq![first] + rest);
        let kept = names.filter(test);
        let later = rest.filter(test);
        lemma_filter_first(first, rest, test);
        let found = untracked_changes(all, known);
        let found_later = untracked_changes(all.skip(1), known);
        assert(names[0].len() > 0);
        assert forall|i: int| 0 <= i < kept.len() implies is_new_file(
            #[trigger] found[i],
            kept[i],
        ) by {
            if test(first) {
                if i > 0 {
                    assert(found[i] == found_later[i - 1]);
                    assert(kept[i] == later[i - 1]);
                }
            }
        }
    }
}

proof fn lemma_filter_first<T>(first: T, rest: Seq<T>, test: spec_fn(T) -> bool)
    ensures
        (seq![first] + rest).filter(test) == (if test(first) {
            seq![first] + rest.filter(test)
        } else {
            rest.filter(test)
        }),
    decreases rest.len(),
{
    reveal(Seq::filter);
    let all = seq![first] + rest;
    if rest.len() == 0 {
        assert(all.drop_last() =~= Seq::empty());
        assert(all.last() == first);
        assert(all.drop_last().filter(test) =~= Seq::empty());
        assert(all.filter(test) =~= if test(first) {
            seq![first] + rest.filter(test)
        } else {
            rest.filter(test)
        });
    } else {
        assert(all.drop_last() =~= seq![first] + rest.drop_last());
        assert(all.last() == rest.last());
        lemma_filter_first(first, rest.drop_last(), test);
        assert(all.filter(test) =~= if test(first) {
            seq![first] + rest.filter(test)
        } else {
            rest.filter(test)
        });
    }
}

/// A scan of the working tree reports what Git lists: for every record of the names
/// its change, and for every untracked file that no record names a new one, and
/// nothing else, by path. A change stands where the last status record for its path
/// tells, else where that for its former path does, and is unstaged where neither is
/// named.
pub proof fn law_working_tree_scan_reports_every_record(
    records: Seq<NameRecord>,
    statuses: Seq<StatusRecord>,
    names: Seq<Seq<u8>>,
    runs: GitRunsView,
    scope: Option<ScopeView>,
    root: Seq<u8>,
) -> (parts: (Seq<GitChangeView>, Seq<GitChangeView>))
    requires
        all_records(records),
        all_statuses(statuses),
        forall|i: int|
            0 <= i < names.len() ==> zero_free(#[trigger] names[i]) && names[i].len() > 0,
        runs.head matches Some(GitRunView::Finished(run)) && run.success,
        wrote(runs.changes, zero_ended(name_words(records))),
        wrote(runs.states, zero_ended(status_words(statuses))),
        wrote(runs.untracked, zero_ended(names)),
        zero_ended(name_words(records)).len() <= 32 * 1024 * 1024,
        zero_ended(status_words(statuses)).len() <= 32 * 1024 * 1024,
        zero_ended(names).len() <= 32 * 1024 * 1024,
    ensures
        parts.0.len() == records.len(),
        forall|i: int|
            0 <= i < records.len() ==> records[i].is_told_by(
                #[trigger] parts.0[i],
                GitComparison::WorkingTree,
            ),
        forall|i: int, k: int|
            #![trigger parts.0[i], statuses[k]]
            0 <= i < records.len() && last_names(statuses, k, records[i].path) ==> columns_tell(
                statuses[k].index,
                statuses[k].worktree,
                parts.0[i].state,
            ),
        forall|i: int, k: int|
            #![trigger parts.0[i], statuses[k]]
            0 <= i < records.len() && none_names(statuses, records[i].path) && records[i].old_path
                is Some && last_names(statuses, k, records[i].old_path->0) ==> columns_tell(
                statuses[k].index,
                statuses[k].worktree,
                parts.0[i].state,
            ),
        forall|i: int|
            0 <= i < records.len() && none_names(statuses, records[i].path) && (
            records[i].old_path is None || none_names(statuses, records[i].old_path->0)) ==> (
            #[trigger] parts.0[i]).state == GitFileState::Unstaged,
        ({
            let kept = names.filter(|name: Seq<u8>| !is_listed(records, name));
            &&& parts.1.len() == kept.len()
            &&& forall|i: int| 0 <= i < kept.len() ==> is_new_file(#[trigger] parts.1[i], kept[i])
        }),
        scan_step(GitComparison::WorkingTree, runs, scope, root) matches ScanStepView::Finished(
            Ok(result),
        ) && reports_all(result, parts.0 + parts.1, scope, root),
{
    let comparison = GitComparison::WorkingTree;
    law_name_status_is_read_back(records, comparison);
    let changes = name_status(split(zero_ended(name_words(records)), 0), comparison)->Ok_0;
    lemma_status_words(statuses);
    lemma_zero_ended(status_words(statuses));
    law_status_listing_is_read_back(statuses, Seq::empty());
    let found = porcelain(split(zero_ended(status_words(statuses)), 0), Map::empty())->Ok_0;
    let known = with_states(changes, found);
    assert forall|i: int| 0 <= i < records.len() implies records[i].is_told_by(
        #[trigger] known[i],
        comparison,
    ) by {
        assert(records[i].is_told_by(changes[i], comparison));
    }
    assert forall|i: int, k: int|
        #![trigger known[i], statuses[k]]
        0 <= i < records.len() && last_names(statuses, k, records[i].path) implies columns_tell(
        statuses[k].index,
        statuses[k].worktree,
        known[i].state,
    ) by {
        assert(records[i].is_told_by(changes[i], comparison));
        law_status_listing_is_read_back(statuses, records[i].path);
    }
    assert forall|i: int, k: int|
        #![trigger known[i], statuses[k]]
        0 <= i < records.len() && none_names(statuses, records[i].path) && records[i].old_path
            is Some && last_names(statuses, k, records[i].old_path->0) implies columns_tell(
        statuses[k].index,
        statuses[k].worktree,
        known[i].state,
    ) by {
        assert(records[i].is_told_by(changes[i], comparison));
        law_status_listing_is_read_back(statuses, records[i].path);
        law_status_listing_is_read_back(statuses, records[i].old_path->0);
    }
    assert forall|i: int|
        0 <= i < records.len() && none_names(statuses, records[i].path) && (records[i].old_path
            is None || none_names(statuses, records[i].old_path->0)) implies (
    #[trigger] known[i]).state == GitFileState::Unstaged by {
        assert(records[i].is_told_by(changes[i], comparison));
        law_status_listing_is_read_back(statuses, records[i].path);
        if records[i].old_path is Some {
            law_status_listing_is_read_back(statuses, records[i].old_path->0);
        }
    }
    lemma_zero_ended(names);
    lemma_untracked_read(names, records, known);
    let others = untracked_changes(split(zero_ended(names), 0), known);
    lemma_reported(known + others, scope, root);
    (known, others)
}

/// A scan that ends well has heard all that it needed, each time from a Git that went
/// well: none of the answers is passed over.
pub proof fn law_scan_ends_well_only_on_good_answers(
    comparison: GitComparison,
    runs: GitRunsView,
    scope: Option<ScopeView>,
    root: Seq<u8>,
)
    requires
        scan_step(comparison, runs, scope, root) matches ScanStepView::Finished(Ok(_)),
    ensures
        went_well(runs.head),
        wrote_little(runs.changes),
        comparison == GitComparison::Unpushed ==> went_well(runs.upstream),
        comparison == GitComparison::WorkingTree ==> wrote_little(runs.states) && wrote_little(
            runs.untracked,
        ),
{
}

pub open spec fn went_well(run: Option<GitRunView>) -> bool {
    run matches Some(GitRunView::Finished(result)) && result.success
}

/// A run that went well and wrote no more than is looked at.
pub open spec fn wrote_little(run: Option<GitRunView>) -> bool {
    run matches Some(GitRunView::Finished(result)) && result.success && result.stdout.len() <= 32
        * 1024 * 1024
}

/// The changes whose edits stand at `state`, in order.
pub open spec fn in_state(changes: Seq<GitChangeView>, state: GitFileState) -> Seq<GitChangeView>
    decreases changes.len(),
{
    if changes.len() == 0 {
        Seq::empty()
    } else {
        let rest = in_state(changes.drop_last(), state);
        if changes.last().state == state {
            rest.push(changes.last())
        } else {
            rest
        }
    }
}

/// The changes one state after another: staged, unstaged, both, untracked,
/// committed.
pub open spec fn by_state(changes: Seq<GitChangeView>) -> Seq<GitChangeView> {
    in_state(changes, GitFileState::Staged) + in_state(changes, GitFileState::Unstaged) + in_state(
        changes,
        GitFileState::StagedAndUnstaged,
    ) + in_state(changes, GitFileState::Untracked) + in_state(changes, GitFileState::Committed)
}

fn push_state(grouped: &mut Vec<GitChange>, changes: &Vec<GitChange>, state: GitFileState)
    ensures
        views(final(grouped)@) == views(old(grouped)@) + in_state(views(changes@), state),
{
    broadcast use group_views;

    let ghost all = views(changes@);
    let ghost before = views(grouped@);
    let mut i: usize = 0;
    proof {
        assert(all.take(0) =~= Seq::empty());
        assert(before + Seq::<GitChangeView>::empty() =~= before);
    }
    while i < changes.len()
        invariant
            i <= changes@.len(),
            all == views(changes@),
            views(grouped@) == before + in_state(all.take(i as int), state),
        decreases changes@.len() - i,
    {
        let ghost done = in_state(all.take(i as int), state);
        proof {
            assert(all.take(i + 1).drop_last() =~= all.take(i as int));
            assert(all.take(i + 1).last() == all[i as int]);
        }
        if changes[i].state == state {
            let change = changes[i].clone();
            proof {
                assert((before + done).push(change@) =~= before + done.push(change@));
            }
            grouped.push(change);
        }
        i += 1;
    }
    proof {
        assert(all.take(i as int) =~= all);
    }
}

/// The changes one state after another.
pub fn group_by_state(changes: &Vec<GitChange>) -> (grouped: Vec<GitChange>)
    ensures
        views(grouped@) == by_state(views(changes@)),
{
    broadcast use group_views;

    let mut grouped: Vec<GitChange> = Vec::new();
    let ghost all = views(changes@);
    proof {
        assert(views(grouped@) =~= Seq::empty());
    }
    push_state(&mut grouped, changes, GitFileState::Staged);
    proof {
        assert(views(grouped@) =~= in_state(all, GitFileState::Staged));
    }
    push_state(&mut grouped, changes, GitFileState::Unstaged);
    push_state(&mut grouped, changes, GitFileState::StagedAndUnstaged);
    push_state(&mut grouped, changes, GitFileState::Untracked);
    push_state(&mut grouped, changes, GitFileState::Committed);
    grouped
}

/// Ordering changes by state loses none and adds none.
pub proof fn law_grouping_keeps_every_change(changes: Seq<GitChangeView>)
    ensures
        by_state(changes).to_multiset() == changes.to_multiset(),
        by_state(changes).len() == changes.len(),
    decreases changes.len(),
{
    broadcast use vstd::seq_lib::group_to_multiset_ensures;

    let a = in_state(changes, GitFileState::Staged);
    let b = in_state(changes, GitFileState::Unstaged);
    let c = in_state(changes, GitFileState::StagedAndUnstaged);
    let d = in_state(changes, GitFileState::Untracked);
    let e = in_state(changes, GitFileState::Committed);
    lemma_five_parts(a, b, c, d, e);
    if changes.len() == 0 {
        assert(by_state(changes) =~= changes);
    } else {
        let front = changes.drop_last();
        law_grouping_keeps_every_change(front);
        lemma_five_parts(
            in_state(front, GitFileState::Staged),
            in_state(front, GitFileState::Unstaged),
            in_state(front, GitFileState::StagedAndUnstaged),
            in_state(front, GitFileState::Untracked),
            in_state(front, GitFileState::Committed),
        );
        assert(changes =~= front.push(changes.last()));
        assert(by_state(changes).to_multiset() =~= by_state(front).to_multiset().insert(
            changes.last(),
        ));
    }
}

proof fn lemma_five_parts(
    a: Seq<GitChangeView>,
    b: Seq<GitChangeView>,
    c: Seq<GitChangeView>,
    d: Seq<GitChangeView>,
    e: Seq<GitChangeView>,
)
    ensures
        (a + b + c + d + e).to_multiset() == a.to_multiset().add(b.to_multiset()).add(
            c.to_multiset(),
        ).add(d.to_multiset()).add(e.to_multiset()),
{
    vstd::seq_lib::lemma_multiset_commutative(a, b);
    vstd::seq_lib::lemma_multiset_commutative(a + b, c);
    vstd::seq_lib::lemma_multiset_commutative(a + b + c, d);
    vstd::seq_lib::lemma_multiset_commutative(a + b + c + d, e);
}

/// What shows a change asks for that change, in the comparison that it was found in: the
/// path stands at the end, behind the mark that ends the options, a tracked file is
/// compared with what its comparison names, and a file that Git does not track with
/// nothing.
pub proof fn law_diff_asks_for_its_change(root: Seq<u8>, change: GitChangeView)
    ensures
        ({
            let words = diff_arguments(root, change);
            let last = words.len() - 1;
            &&& words[0] == word("diff"@)
            &&& !change.untracked ==> {
                &&& words[last] == change.path
                &&& words[last - 1] == word("--"@)
                &&& change.comparison == GitComparison::WorkingTree ==> words[last - 2] == word(
                    "HEAD"@,
                )
                &&& change.comparison == GitComparison::Unpushed ==> words[last - 2] == word(
                    "@{upstream}..HEAD"@,
                )
            }
            &&& change.untracked ==> {
                &&& words[last] == joined(root, change.path)
                &&& words[last - 1] == word("/dev/null"@)
                &&& words[last - 2] == word("--"@)
                &&& words[1] == word("--no-index"@)
            }
        }),
{
}

/// What lists changes asks for the comparison that is scanned.
pub proof fn law_scan_asks_for_its_comparison(
    comparison: GitComparison,
    runs: GitRunsView,
    scope: Option<ScopeView>,
    root: Seq<u8>,
)
    ensures
        scan_step(comparison, runs, scope, root) matches ScanStepView::Ask(question) ==> {
            &&& question matches GitQuestion::Changes(asked) ==> {
                let words = question_arguments(question);
                &&& asked == comparison
                &&& words[words.len() - 2] == (match comparison {
                    GitComparison::WorkingTree => word("HEAD"@),
                    GitComparison::Unpushed => word("@{upstream}..HEAD"@),
                })
            }
            &&& question == GitQuestion::Upstream ==> comparison == GitComparison::Unpushed
            &&& question == GitQuestion::States || question == GitQuestion::Untracked ==> comparison
                == GitComparison::WorkingTree
            &&& question != GitQuestion::UnpushedCount
        },
{
}

/// The number of unpushed commits is the one that Git writes.
pub proof fn law_unpushed_count_is_read_back(count: usize, runs: GitRunsView)
    requires
        went_well(runs.upstream),
        wrote(runs.unpushed_count, encode_utf8(decimal(count as nat).push('\n'))),
    ensures
        count_step(runs) == CountStep::Finished(Some(count)),
{
    let digits = decimal(count as nat);
    let text = digits.push('\n');
    vstd::utf8::encode_utf8_valid_utf8(text);
    vstd::utf8::encode_utf8_decode_utf8(text);
    lemma_decimal(count as nat);
    assert(is_digit(digits[0]));
    assert(is_digit(digits[digits.len() - 1]));
    law_trimming_cuts_white_space(Seq::empty(), digits, seq!['\n']);
    assert(Seq::<char>::empty() + digits + seq!['\n'] =~= text);
    law_numbers_are_read_back(count);
}

/// What is shown of a change is what Git wrote of it, line for line; where the output
/// is too long, is no text, or Git failed, it is not shown. That the two sides differ,
/// which Git tells by the code 1, is no failure.
pub proof fn law_diff_shows_what_git_wrote(run: GitRunView)
    ensures
        shown_diff(run) is Ok <==> (run matches GitRunView::Finished(output) && output.stdout.len()
            <= 32 * 1024 * 1024 && (output.success || output.code == Some(1i32)) && valid_utf8(
            output.stdout,
        )),
        shown_diff(run) matches Ok(lines) ==> {
            let text = text_lines(decode_utf8(run->Finished_0.stdout));
            &&& lines.len() == text.len()
            &&& forall|i: int| 0 <= i < text.len() ==> (#[trigger] lines[i]).text == text[i]
        },
{
    if let Ok(lines) = shown_diff(run) {
        law_diff_keeps_every_line(decode_utf8(run->Finished_0.stdout));
    }
}

/// The place of a state among the others.
pub open spec fn state_place(state: GitFileState) -> int {
    match state {
        GitFileState::Staged => 0,
        GitFileState::Unstaged => 1,
        GitFileState::StagedAndUnstaged => 2,
        GitFileState::Untracked => 3,
        GitFileState::Committed => 4,
    }
}

proof fn lemma_in_state(changes: Seq<GitChangeView>, state: GitFileState, other: GitFileState)
    ensures
        forall|k: int|
            0 <= k < in_state(changes, state).len() ==> (#[trigger] in_state(
                changes,
                state,
            )[k]).state == state,
        in_state(changes, state) == changes.filter(|change: GitChangeView| change.state == state),
        in_state(changes, state).filter(|change: GitChangeView| change.state == other) == (
        if state == other {
            in_state(changes, state)
        } else {
            Seq::empty()
        }),
    decreases changes.len(),
{
    reveal(Seq::filter);
    if changes.len() > 0 {
        lemma_in_state(changes.drop_last(), state, other);
        let rest = in_state(changes.drop_last(), state);
        assert(rest.push(changes.last()).drop_last() =~= rest);
    }
}

/// Grouped changes stand one state after another, those that are staged first, then
/// those that are not, those that are both, those that Git does not track and those
/// that are committed; and within a state in the order that they came in.
pub proof fn law_groups_stand_in_order(changes: Seq<GitChangeView>, state: GitFileState)
    ensures
        forall|i: int, j: int|
            0 <= i < j < by_state(changes).len() ==> state_place(
                (#[trigger] by_state(changes)[i]).state,
            ) <= state_place((#[trigger] by_state(changes)[j]).state),
        by_state(changes).filter(|change: GitChangeView| change.state == state) == changes.filter(
            |change: GitChangeView| change.state == state,
        ),
{
    let own = |change: GitChangeView| change.state == state;
    lemma_in_state(changes, GitFileState::Staged, state);
    lemma_in_state(changes, GitFileState::Unstaged, state);
    lemma_in_state(changes, GitFileState::StagedAndUnstaged, state);
    lemma_in_state(changes, GitFileState::Untracked, state);
    lemma_in_state(changes, GitFileState::Committed, state);
    let a = in_state(changes, GitFileState::Staged);
    let b = in_state(changes, GitFileState::Unstaged);
    let c = in_state(changes, GitFileState::StagedAndUnstaged);
    let d = in_state(changes, GitFileState::Untracked);
    let e = in_state(changes, GitFileState::Committed);
    Seq::filter_distributes_over_add(a, b, own);
    Seq::filter_distributes_over_add(a + b, c, own);
    Seq::filter_distributes_over_add(a + b + c, d, own);
    Seq::filter_distributes_over_add(a + b + c + d, e, own);
    assert(by_state(changes).filter(own) =~= in_state(changes, state));
}

/// A change stands at the state that was reported for its path, else at that of the path
/// it had; one that nothing was reported for is not staged.
pub proof fn law_states_go_with_paths(statuses: StatusMap, change: GitChangeView)
    ensures
        ({
            let known = |path: Seq<u8>| statuses.dom().contains(components(path));
            let state = state_of(statuses, change);
            &&& known(change.path) ==> state == statuses[components(change.path)]
            &&& !known(change.path) ==> match change.old_path {
                Some(old) => if known(old) {
                    state == statuses[components(old)]
                } else {
                    state == GitFileState::Unstaged
                },
                None => state == GitFileState::Unstaged,
            }
        }),
{
}

/// What went wrong with Git is told in its own words, where it had any, behind what was
/// tried; output of more than thirty-two mebibytes is refused, and only what a command
/// wrote that went well is gone by.
pub proof fn law_failures_of_git_are_told(
    run: GitRunView,
    tried: Seq<char>,
    operation: Seq<char>,
)
    ensures
        ({
            let output = checked_output(run, tried, operation);
            &&& output is Ok <==> (run matches GitRunView::Finished(ended) && ended.success
                && ended.stdout.len() <= 33_554_432)
            &&& run matches GitRunView::Finished(ended) ==> {
                &&& output is Ok ==> output->Ok_0 == ended.stdout
                &&& !ended.success && trim(lossy(ended.stderr)).len() == 0 ==> output == Err::<
                    Seq<u8>,
                    Seq<char>,
                >(tried)
                &&& !ended.success && trim(lossy(ended.stderr)).len() > 0 ==> output == Err::<
                    Seq<u8>,
                    Seq<char>,
                >(tried + ": "@ + trim(lossy(ended.stderr)))
            }
            &&& run matches GitRunView::NotStarted(error) ==> output == Err::<Seq<u8>, Seq<char>>(
                "Unable to run Git: "@ + error,
            )
        }),
{
}

/// Whether a word stands among the arguments.
pub open spec fn asks_with(arguments: Seq<Seq<u8>>, text: Seq<char>) -> bool {
    exists|i: int| 0 <= i < arguments.len() && #[trigger] arguments[i] == word(text)
}

proof fn lemma_asks_with(arguments: Seq<Seq<u8>>, text: Seq<char>, i: int)
    requires
        0 <= i < arguments.len(),
        arguments[i] == word(text),
    ensures
        asks_with(arguments, text),
{
}

/// Git is asked for changes as they are read: names with their letters, renames among them,
/// in the form that ends words with a zero byte.
#[verifier::spinoff_prover]
pub proof fn law_git_is_asked_for_names_with_letters(comparison: GitComparison)
    ensures
        ({
            let changes = question_arguments(GitQuestion::Changes(comparison));
            &&& changes[0] == word("diff"@)
            &&& asks_with(changes, "--name-status"@)
            &&& asks_with(changes, "-z"@)
            &&& asks_with(changes, "--find-renames"@)
            &&& asks_with(changes, "--relative"@)
            &&& changes[changes.len() - 1] == word("--"@)
        }),
{
    let changes = question_arguments(GitQuestion::Changes(comparison));
    lemma_asks_with(changes, "--relative"@, 1);
    lemma_asks_with(changes, "--name-status"@, 2);
    lemma_asks_with(changes, "-z"@, 3);
    lemma_asks_with(changes, "--find-renames"@, 4);
}

/// Git is asked for states as they are read: in two columns, with every file that it does
/// not track by itself, in the form that ends words with a zero byte.
#[verifier::spinoff_prover]
pub proof fn law_git_is_asked_for_states_in_columns()
    ensures
        ({
            let states = question_arguments(GitQuestion::States);
            &&& states[0] == word("status"@)
            &&& asks_with(states, "--porcelain=v1"@)
            &&& asks_with(states, "-z"@)
            &&& asks_with(states, "--untracked-files=all"@)
        }),
{
    let states = question_arguments(GitQuestion::States);
    lemma_asks_with(states, "--porcelain=v1"@, 1);
    lemma_asks_with(states, "-z"@, 2);
    lemma_asks_with(states, "--untracked-files=all"@, 3);
}

/// Git is asked for the files that it neither tracks nor ignores, in the form that ends
/// words with a zero byte.
#[verifier::spinoff_prover]
pub proof fn law_git_is_asked_for_files_it_does_not_track()
    ensures
        ({
            let others = question_arguments(GitQuestion::Untracked);
            &&& others[0] == word("ls-files"@)
            &&& asks_with(others, "--others"@)
            &&& asks_with(others, "--exclude-standard"@)
            &&& asks_with(others, "-z"@)
        }),
{
    let others = question_arguments(GitQuestion::Untracked);
    lemma_asks_with(others, "--others"@, 1);
    lemma_asks_with(others, "--exclude-standard"@, 2);
    lemma_asks_with(others, "-z"@, 3);
}

/// Git is asked what it is at and follows, and how many commits are between the two.
#[verifier::spinoff_prover]
pub proof fn law_git_is_asked_how_far_it_is_ahead()
    ensures
        ({
            let count = question_arguments(GitQuestion::UnpushedCount);
            let head = question_arguments(GitQuestion::Head);
            let upstream = question_arguments(GitQuestion::Upstream);
            &&& count[0] == word("rev-list"@)
            &&& count[1] == word("--count"@)
            &&& count[2] == word("@{upstream}..HEAD"@)
            &&& count.len() == 3
            &&& head[head.len() - 1] == word("HEAD"@)
            &&& upstream[upstream.len() - 1] == word("@{upstream}"@)
        }),
{
}

/// Wherever Git compares, it runs no program of the repository's choosing, and what it
/// shows has no colors and three lines around each difference. It works in the directory
/// that it is given, trusts that one, takes no locks that it can do without and asks
/// nothing.
#[verifier::spinoff_prover]
pub proof fn law_git_runs_nothing_else(
    directory: Seq<u8>,
    arguments: Seq<Seq<u8>>,
    root: Seq<u8>,
    change: GitChangeView,
    comparison: GitComparison,
)
    ensures
        ({
            let listed = question_arguments(GitQuestion::Changes(comparison));
            let shown = diff_arguments(root, change);
            let command = invocation(directory, arguments);
            &&& asks_with(listed, "--no-ext-diff"@)
            &&& asks_with(listed, "--no-textconv"@)
            &&& asks_with(shown, "--no-ext-diff"@)
            &&& asks_with(shown, "--no-textconv"@)
            &&& asks_with(shown, "--no-color"@)
            &&& asks_with(shown, "--unified=3"@)
            &&& command.arguments[0] == word("-c"@)
            &&& command.arguments[1] == word("safe.directory="@) + directory
            &&& command.arguments[2] == word("-C"@)
            &&& command.arguments[3] == directory
            &&& command.arguments.skip(4) == arguments
            &&& command.environment.contains((word("GIT_OPTIONAL_LOCKS"@), word("0"@)))
            &&& command.environment.contains((word("GIT_TERMINAL_PROMPT"@), word("0"@)))
        }),
{
    let listed = question_arguments(GitQuestion::Changes(comparison));
    let shown = diff_arguments(root, change);
    let command = invocation(directory, arguments);
    lemma_asks_with(listed, "--no-ext-diff"@, 5);
    lemma_asks_with(listed, "--no-textconv"@, 6);
    if change.untracked {
        lemma_asks_with(shown, "--no-ext-diff"@, 2);
        lemma_asks_with(shown, "--no-textconv"@, 3);
        lemma_asks_with(shown, "--no-color"@, 4);
        lemma_asks_with(shown, "--unified=3"@, 5);
    } else {
        lemma_asks_with(shown, "--no-ext-diff"@, 1);
        lemma_asks_with(shown, "--no-textconv"@, 2);
        lemma_asks_with(shown, "--no-color"@, 3);
        lemma_asks_with(shown, "--unified=3"@, 5);
    }
    assert(command.arguments.skip(4) =~= arguments);
    assert(command.environment[0] == (word("GIT_OPTIONAL_LOCKS"@), word("0"@)));
    assert(command.environment[1] == (word("GIT_TERMINAL_PROMPT"@), word("0"@)));
}

/// Of states that were reported for one path the last counts.
pub proof fn law_the_last_state_of_a_path_counts(
    entries: Seq<(Seq<ComponentView>, GitFileState)>,
    k: int,
)
    requires
        0 <= k < entries.len(),
        forall|j: int| k < j < entries.len() ==> (#[trigger] entries[j]).0 != entries[k].0,
    ensures
        entry_map(entries).dom().contains(entries[k].0),
        entry_map(entries)[entries[k].0] == entries[k].1,
    decreases entries.len(),
{
    if k < entries.len() - 1 {
        let front = entries.drop_last();
        assert forall|j: int| k < j < front.len() implies (#[trigger] front[j]).0
            != front[k].0 by {
            assert(front[j] == entries[j]);
        }
        law_the_last_state_of_a_path_counts(front, k);
        assert(entries[entries.len() - 1].0 != entries[k].0);
    }
}

} // verus!

use herdr_agent_diff::diff::{DiffLine, DiffLineKind};
use herdr_agent_diff::git::{
    arguments_of, command_error, diff, ensure_output_limit, git_command, parse_name_status,
    parse_porcelain_status, porcelain_state, scan, unpushed_commit_count, CountStep, DiffStep,
    GitChange, GitComparison, GitFileState, GitOutput, GitQuestion, GitRun, GitRuns, ScanStep,
    MAX_GIT_OUTPUT_BYTES,
};
use herdr_agent_diff::model::ChangeKind;
use herdr_agent_diff::project::{
    Discovery, DiscoveryAnswer, DiscoveryOutcome, DiscoveryQuestion, ProjectScope,
};

fn good(stdout: &[u8]) -> GitRun {
    GitRun::Finished(GitOutput {
        success: true,
        code: Some(0),
        stdout: stdout.to_vec(),
        stderr: Vec::new(),
    })
}

fn failed(code: i32, stdout: &[u8], stderr: &[u8]) -> GitRun {
    GitRun::Finished(GitOutput {
        success: false,
        code: Some(code),
        stdout: stdout.to_vec(),
        stderr: stderr.to_vec(),
    })
}

/// A repository that answers every question with a given output.
struct Repository {
    changes: Vec<u8>,
    states: Vec<u8>,
    untracked: Vec<u8>,
}

impl Repository {
    fn answer(&self, question: GitQuestion) -> GitRun {
        match question {
            GitQuestion::Head => good(b"0123456789abcdef0123456789abcdef01234567\n"),
            GitQuestion::Upstream => good(b"origin/main\n"),
            GitQuestion::Changes(_) => good(&self.changes),
            GitQuestion::States => good(&self.states),
            GitQuestion::Untracked => good(&self.untracked),
            GitQuestion::UnpushedCount => good(b"1\n"),
        }
    }

    fn scan(
        &self,
        root: &str,
        comparison: GitComparison,
        scope: &Option<ProjectScope>,
    ) -> Result<Vec<GitChange>, String> {
        let mut runs = GitRuns::new();
        loop {
            match scan(root.as_bytes(), comparison, scope, &runs) {
                ScanStep::Ask(question) => runs.answer(question, self.answer(question)),
                ScanStep::Finished(result) => return result,
            }
        }
    }
}

fn show(root: &str, change: &GitChange, output: GitRun) -> Result<Vec<DiffLine>, String> {
    assert!(matches!(
        diff(root.as_bytes(), change, &None),
        DiffStep::Run(_)
    ));
    match diff(root.as_bytes(), change, &Some(output)) {
        DiffStep::Finished(result) => result,
        DiffStep::Run(_) => panic!("run twice"),
    }
}

fn find<'a>(changes: &'a [GitChange], path: &[u8]) -> &'a GitChange {
    changes
        .iter()
        .find(|change| change.path == path)
        .expect("change")
}

fn view_at(view: &str, contents: &str, root: &str) -> Option<ProjectScope> {
    let mut search = Discovery::discover(root.as_bytes().to_vec());
    loop {
        let answer = match search.question() {
            DiscoveryQuestion::IsFile(path) => DiscoveryAnswer {
                yes: path == view.as_bytes(),
                contents: None,
            },
            DiscoveryQuestion::Contents(_) => DiscoveryAnswer {
                yes: true,
                contents: Some(contents.to_owned()),
            },
            DiscoveryQuestion::Exists(path) => DiscoveryAnswer {
                yes: path == b"/r/.git",
                contents: None,
            },
        };
        match search.advance(answer) {
            DiscoveryOutcome::Continue(next) => search = next,
            DiscoveryOutcome::Finished(scope) => return scope,
        }
    }
}

const TRACKED_DIFF: &[u8] = b"diff --git a/tracked.txt b/tracked.txt\n\
index 90be1f3..4c3ff1f 100644\n--- a/tracked.txt\n+++ b/tracked.txt\n\
@@ -1 +1,2 @@\n before\n+after\n";

const UNTRACKED_DIFF: &[u8] = b"diff --git a/r/untracked.txt b/r/untracked.txt\n\
new file mode 100644\nindex 0000000..3e75765\n--- /dev/null\n+++ b/r/untracked.txt\n\
@@ -0,0 +1 @@\n+new\n";

#[test]
fn scans_working_tree_and_renders_tracked_and_untracked_changes() {
    let repository = Repository {
        changes: b"M\0mixed.txt\0M\0staged.txt\0M\0tracked.txt\0".to_vec(),
        states: b"MM mixed.txt\0M  staged.txt\0 M tracked.txt\0?? untracked.txt\0".to_vec(),
        untracked: b"untracked.txt\0".to_vec(),
    };

    let changes = repository
        .scan("/r", GitComparison::WorkingTree, &None)
        .expect("scan git changes");
    assert_eq!(changes.len(), 4);
    let known = find(&changes, b"tracked.txt");
    assert_eq!(known.kind, ChangeKind::Modified);
    assert!(!known.untracked);
    assert_eq!(known.state, GitFileState::Unstaged);
    let tracked_lines = show("/r", known, good(TRACKED_DIFF)).expect("tracked diff");
    assert!(tracked_lines
        .iter()
        .any(|line| line.kind == DiffLineKind::Addition));

    let staged = find(&changes, b"staged.txt");
    assert!(!staged.untracked);
    assert_eq!(staged.state, GitFileState::Staged);
    assert!(show("/r", staged, good(TRACKED_DIFF))
        .expect("staged diff")
        .iter()
        .any(|line| line.kind == DiffLineKind::Addition));

    let mixed = find(&changes, b"mixed.txt");
    assert_eq!(mixed.state, GitFileState::StagedAndUnstaged);

    let untracked = find(&changes, b"untracked.txt");
    assert!(untracked.untracked);
    assert_eq!(untracked.state, GitFileState::Untracked);
    let untracked_lines =
        show("/r", untracked, failed(1, UNTRACKED_DIFF, b"")).expect("untracked diff");
    assert!(untracked_lines
        .iter()
        .any(|line| line.kind == DiffLineKind::Addition));
}

#[test]
fn bazelproject_limits_working_tree_changes_to_selected_directories() {
    let scope = view_at(
        "/r/.eclipse/.bazelproject",
        "directories:\n  java/selected\n",
        "/r",
    );
    let repository = Repository {
        changes: b"M\0java/other/Other.java\0M\0java/selected/Main.java\0".to_vec(),
        states: b" M java/other/Other.java\0 M java/selected/Main.java\0\
?? java/other/Added.java\0?? java/selected/Added.java\0"
            .to_vec(),
        untracked: b"java/other/Added.java\0java/selected/Added.java\0".to_vec(),
    };

    let changes = repository
        .scan("/r", GitComparison::WorkingTree, &scope)
        .expect("scan changes");
    let paths: Vec<&[u8]> = changes.iter().map(|change| change.path.as_slice()).collect();
    assert_eq!(
        paths,
        [
            b"java/selected/Added.java".as_slice(),
            b"java/selected/Main.java".as_slice()
        ]
    );
}

#[test]
fn ancestor_bazelproject_limits_changes_from_a_nested_git_workspace() {
    let scope = view_at(
        "/r/.bazelproject",
        "directories:\n  project/java/selected\n",
        "/r/project",
    );
    let repository = Repository {
        changes: b"M\0java/other/Other.java\0M\0java/selected/Main.java\0".to_vec(),
        states: b" M project/java/other/Other.java\0 M project/java/selected/Main.java\0".to_vec(),
        untracked: b"java/other/Added.java\0java/selected/Added.java\0".to_vec(),
    };

    let changes = repository
        .scan("/r/project", GitComparison::WorkingTree, &scope)
        .expect("scan changes");
    let paths: Vec<&[u8]> = changes.iter().map(|change| change.path.as_slice()).collect();
    assert_eq!(
        paths,
        [
            b"java/selected/Added.java".as_slice(),
            b"java/selected/Main.java".as_slice()
        ]
    );
}

#[test]
fn scans_committed_changes_that_are_not_pushed() {
    let repository = Repository {
        changes: b"M\0tracked.txt\0".to_vec(),
        states: Vec::new(),
        untracked: b"ignored-here.txt\0".to_vec(),
    };

    let changes = repository
        .scan("/r", GitComparison::Unpushed, &None)
        .expect("scan unpushed");
    assert_eq!(changes.len(), 1);
    assert_eq!(changes[0].path, b"tracked.txt");
    assert_eq!(changes[0].comparison, GitComparison::Unpushed);
    assert!(!changes[0].untracked);
    assert_eq!(changes[0].state, GitFileState::Committed);
    let lines = show("/r", &changes[0], good(TRACKED_DIFF)).expect("unpushed diff");
    assert!(lines.iter().any(|line| line.kind == DiffLineKind::Addition));
}

#[test]
fn scans_and_diffs_non_utf8_linux_paths() {
    let repository = Repository {
        changes: Vec::new(),
        states: b"?? linux-\xff.txt\0".to_vec(),
        untracked: b"linux-\xff.txt\0".to_vec(),
    };

    let changes = repository
        .scan("/r", GitComparison::WorkingTree, &None)
        .expect("scan git changes");
    let change = find(&changes, b"linux-\xff.txt");
    assert!(change.untracked);
    let output = b"--- /dev/null\n+++ \"b/r/linux-\\377.txt\"\n@@ -0,0 +1 @@\n+new\n";
    assert!(show("/r", change, failed(1, output, b""))
        .expect("render non-UTF-8 diff")
        .iter()
        .any(|line| line.kind == DiffLineKind::Addition));
}

fn text(arguments: &[Vec<u8>]) -> Vec<String> {
    arguments
        .iter()
        .map(|argument| String::from_utf8(argument.clone()).expect("argument"))
        .collect()
}

#[test]
fn git_is_asked_in_these_words() {
    assert_eq!(
        text(&arguments_of(GitQuestion::Head)),
        ["rev-parse", "--verify", "HEAD"]
    );
    assert_eq!(
        text(&arguments_of(GitQuestion::Changes(
            GitComparison::WorkingTree
        ))),
        [
            "diff",
            "--relative",
            "--name-status",
            "-z",
            "--find-renames",
            "--no-ext-diff",
            "--no-textconv",
            "HEAD",
            "--"
        ]
    );
    assert_eq!(
        text(&arguments_of(GitQuestion::Changes(GitComparison::Unpushed)))[7],
        "@{upstream}..HEAD"
    );
    let command = git_command(b"/r", arguments_of(GitQuestion::UnpushedCount));
    let all = text(&command.arguments);
    assert!(all.contains(&"safe.directory=/r".to_owned()));
    assert_eq!(all[..4], ["-c", "safe.directory=/r", "-C", "/r"]);
    assert_eq!(all[4..], ["rev-list", "--count", "@{upstream}..HEAD"]);
    assert_eq!(
        command.environment,
        [
            (b"GIT_OPTIONAL_LOCKS".to_vec(), b"0".to_vec()),
            (b"GIT_TERMINAL_PROMPT".to_vec(), b"0".to_vec()),
        ]
    );
}

#[test]
fn a_rename_keeps_both_paths_and_the_state_of_either() {
    let repository = Repository {
        changes: b"R100\0old.txt\0new.txt\0D\0gone.txt\0A\0added.txt\0".to_vec(),
        states: b"R  new.txt\0old.txt\0D  gone.txt\0A  added.txt\0".to_vec(),
        untracked: Vec::new(),
    };
    let changes = repository
        .scan("/r", GitComparison::WorkingTree, &None)
        .expect("scan");
    let renamed = find(&changes, b"new.txt");
    assert_eq!(renamed.kind, ChangeKind::Renamed);
    assert_eq!(renamed.old_path.as_deref(), Some(b"old.txt".as_slice()));
    assert_eq!(renamed.state, GitFileState::Staged);
    assert_eq!(find(&changes, b"gone.txt").kind, ChangeKind::Deleted);
    assert_eq!(find(&changes, b"added.txt").kind, ChangeKind::Added);
    let paths: Vec<&[u8]> = changes.iter().map(|change| change.path.as_slice()).collect();
    assert_eq!(
        paths,
        [
            b"added.txt".as_slice(),
            b"gone.txt".as_slice(),
            b"new.txt".as_slice()
        ]
    );
}

#[test]
fn a_scan_says_what_is_wrong() {
    let stopped = |question: GitQuestion, run: GitRun, comparison: GitComparison| {
        let repository = Repository {
            changes: Vec::new(),
            states: Vec::new(),
            untracked: Vec::new(),
        };
        let mut runs = GitRuns::new();
        let mut run = Some(run);
        loop {
            match scan(b"/r", comparison, &None, &runs) {
                ScanStep::Finished(result) => return result,
                ScanStep::Ask(asked) => {
                    let answer = if asked == question {
                        run.take().expect("asked once")
                    } else {
                        repository.answer(asked)
                    };
                    runs.answer(asked, answer);
                }
            }
        }
    };
    let work = GitComparison::WorkingTree;
    let unpushed = GitComparison::Unpushed;
    assert_eq!(
        stopped(
            GitQuestion::Head,
            GitRun::NotStarted("no git".to_owned()),
            work
        ),
        Err("Unable to run Git: no git".to_owned())
    );
    let outside = stopped(
        GitQuestion::Head,
        failed(128, b"", b"fatal: not a git repository"),
        work,
    );
    assert!(outside.is_err());
    let upstream = stopped(GitQuestion::Upstream, failed(128, b"", b""), unpushed)
        .expect_err("no upstream");
    assert!(upstream.contains("git push -u"), "{upstream}");
    let changes = stopped(
        GitQuestion::Changes(work),
        failed(128, b"", b" broken \n"),
        work,
    )
    .expect_err("no changes");
    assert!(changes.ends_with(": broken"), "{changes}");
    let limit = stopped(
        GitQuestion::Untracked,
        good(&vec![0; MAX_GIT_OUTPUT_BYTES + 1]),
        work,
    )
    .expect_err("too much");
    assert!(limit.ends_with("output exceeds the 32 MiB viewer limit."));
}

#[test]
fn output_is_read_as_git_writes_it() {
    assert!(parse_name_status(b"M", GitComparison::WorkingTree).is_err());
    assert!(parse_name_status(b"R100\0old", GitComparison::WorkingTree).is_err());
    let statuses = parse_porcelain_status(b" M a b.txt\0?? c\0").expect("statuses");
    assert_eq!(statuses.get(b"a b.txt"), Some(GitFileState::Unstaged));
    assert_eq!(statuses.get(b"c"), Some(GitFileState::Untracked));
    assert_eq!(statuses.get(b"d"), None);
    assert_eq!(porcelain_state(b'M', b'M'), GitFileState::StagedAndUnstaged);
    assert_eq!(porcelain_state(b'A', b' '), GitFileState::Staged);
    let labels: Vec<&str> = [
        GitFileState::Staged,
        GitFileState::Unstaged,
        GitFileState::StagedAndUnstaged,
        GitFileState::Untracked,
        GitFileState::Committed,
    ]
    .iter()
    .map(|state| state.label())
    .collect();
    assert_eq!(
        labels,
        ["staged", "unstaged", "mixed", "untracked", "committed"]
    );
}

#[test]
fn failures_are_reported_with_what_git_said() {
    assert_eq!(command_error(b"", "Git diff failed"), "Git diff failed");
    assert_eq!(
        command_error(b"\n fatal: \xff \n", "Git diff failed"),
        "Git diff failed: fatal: \u{fffd}"
    );
    assert!(ensure_output_limit(&vec![0; MAX_GIT_OUTPUT_BYTES], "Git diff").is_ok());
    assert_eq!(
        ensure_output_limit(&vec![0; MAX_GIT_OUTPUT_BYTES + 1], "Git diff"),
        Err("Git diff output exceeds the 32 MiB viewer limit.".to_owned())
    );
    let change = GitChange {
        kind: ChangeKind::Modified,
        path: b"a.txt".to_vec(),
        old_path: None,
        untracked: false,
        comparison: GitComparison::WorkingTree,
        state: GitFileState::Unstaged,
    };
    assert_eq!(
        show("/r", &change, failed(128, b"", b"fatal: bad")),
        Err("Git diff failed: fatal: bad".to_owned())
    );
    assert_eq!(
        show("/r", &change, GitRun::NotStarted("gone".to_owned())),
        Err("Unable to run Git diff: gone".to_owned())
    );
}

#[test]
fn unpushed_commits_are_counted_where_there_is_an_upstream() {
    let count = |upstream: GitRun, output: GitRun| {
        let mut runs = GitRuns::new();
        let mut upstream = Some(upstream);
        let mut output = Some(output);
        loop {
            match unpushed_commit_count(&runs) {
                CountStep::Finished(count) => return count,
                CountStep::Ask(GitQuestion::Upstream) => runs.answer(
                    GitQuestion::Upstream,
                    upstream.take().expect("asked once"),
                ),
                CountStep::Ask(question) => {
                    runs.answer(question, output.take().expect("asked once"))
                }
            }
        }
    };
    assert_eq!(count(good(b"origin/main\n"), good(b"12\n")), Some(12));
    assert_eq!(count(good(b"origin/main\n"), good(b"many\n")), None);
    assert_eq!(count(failed(128, b"", b""), good(b"12\n")), None);
}

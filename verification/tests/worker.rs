use herdr_agent_diff::diff::DiffLineKind;
use herdr_agent_diff::error::Error;
use herdr_agent_diff::git::{
    GitChange, GitComparison, GitFileState, GitOutput, GitQuestion, GitRun,
};
use herdr_agent_diff::model::{
    Change, ChangeKind, CurrentFile, FileRecord, TextEligibility, INLINE_TEXT_LIMIT,
};
use herdr_agent_diff::queue::{Task, WorkResult};
use herdr_agent_diff::worker::{Findings, WorkStep};

fn file(text: TextEligibility) -> CurrentFile {
    CurrentFile {
        relative: b"a.rs".to_vec(),
        absolute: b"/p/a.rs".to_vec(),
        size: 9,
        modified_unix_ns: None,
        text,
    }
}

fn good(stdout: &[u8]) -> GitRun {
    GitRun::Finished(GitOutput {
        success: true,
        code: Some(0),
        stdout: stdout.to_vec(),
        stderr: Vec::new(),
    })
}

#[test]
fn a_scan_reports_what_it_found() {
    let task = Task::Scan(3);
    let mut found = Findings::new();
    assert!(matches!(
        found.step(&task, b"/p", 3, true),
        WorkStep::LoadBaseline
    ));
    found.baseline = Some(Err(Error::Json("broken".to_owned())));
    assert!(matches!(
        found.step(&task, b"/p", 3, true),
        WorkStep::LookForCapture
    ));
    found.capturing = Some(true);
    assert!(matches!(
        found.step(&task, b"/p", 3, true),
        WorkStep::ScanFiles
    ));
    found.scanned = Some(Ok((
        vec![file(TextEligibility::Text)],
        Vec::new(),
        vec!["note".to_owned()],
    )));
    match found.step(&task, b"/p", 3, true) {
        WorkStep::Finished(Some(WorkResult::Scan(result))) => {
            assert_eq!(result.generation, 3);
            assert!(result.baseline.is_none());
            assert!(result.capturing);
            assert_eq!(result.files.len(), 1);
            assert_eq!(result.notices, ["note"]);
            assert_eq!(result.error, None);
        }
        step => panic!("{step:?}"),
    }
}

#[test]
fn a_scan_that_was_overtaken_comes_to_nothing() {
    let mut found = Findings::new();
    assert!(matches!(
        found.step(&Task::Scan(3), b"/p", 4, true),
        WorkStep::Finished(None)
    ));
    found.baseline = Some(Ok(None));
    found.capturing = Some(false);
    found.scanned = Some(Err(Error::Io("denied".to_owned())));
    assert!(matches!(
        found.step(&Task::Scan(3), b"/p", 4, true),
        WorkStep::Finished(None)
    ));
    match found.step(&Task::Scan(3), b"/p", 3, true) {
        WorkStep::Finished(Some(WorkResult::Scan(result))) => {
            assert_eq!(result.error.as_deref(), Some("denied"));
            assert!(result.files.is_empty());
        }
        step => panic!("{step:?}"),
    }
}

#[test]
fn a_diff_reads_what_it_compares() {
    let change = |kind: ChangeKind| Task::Diff {
        generation: 2,
        index: 5,
        change: Change {
            kind,
            path: b"a.rs".to_vec(),
            old_path: None,
            baseline: Some(FileRecord {
                blob: Some("00".to_owned()),
            }),
            current: Some(file(TextEligibility::Text)),
        },
    };
    let task = change(ChangeKind::Modified);
    let mut found = Findings::new();
    match found.step(&task, b"/p", 1, true) {
        WorkStep::ReadBlob(hash) => assert_eq!(hash, "00"),
        step => panic!("{step:?}"),
    }
    found.blob = Some(Ok(b"old\n".to_vec()));
    match found.step(&task, b"/p", 1, true) {
        WorkStep::ReadFile(path, limit) => {
            assert_eq!((path.as_slice(), limit), (b"a.rs".as_slice(), INLINE_TEXT_LIMIT));
        }
        step => panic!("{step:?}"),
    }
    found.content = Some(Ok(b"new\n".to_vec()));
    match found.step(&task, b"/p", 1, true) {
        WorkStep::Finished(Some(WorkResult::Diff {
            generation: 2,
            index: 5,
            lines,
        })) => assert!(lines.iter().any(|line| line.kind == DiffLineKind::Addition)),
        step => panic!("{step:?}"),
    }
    assert!(matches!(
        Findings::new().step(&change(ChangeKind::Renamed), b"/p", 1, true),
        WorkStep::Finished(Some(WorkResult::Diff { .. }))
    ));
}

#[test]
fn a_source_is_shown_plain_and_then_in_colors() {
    let task = Task::Highlight {
        generation: 2,
        index: 5,
        file: file(TextEligibility::Text),
    };
    let mut found = Findings::new();
    assert!(matches!(
        found.step(&task, b"/p", 1, true),
        WorkStep::ReadFile(_, INLINE_TEXT_LIMIT)
    ));
    found.content = Some(Ok(b"fn main() {}\n".to_vec()));
    match found.step(&task, b"/p", 1, true) {
        WorkStep::Preview(WorkResult::Highlight { lines, .. }) => {
            assert_eq!(lines[0][0].text, "fn main() {}");
        }
        step => panic!("{step:?}"),
    }
    found.previewed = true;
    assert!(matches!(
        found.step(&task, b"/p", 1, true),
        WorkStep::FindSyntax
    ));
    found.syntax = Some("Rust".to_owned());
    match found.step(&task, b"/p", 1, true) {
        WorkStep::Finished(Some(WorkResult::Highlight { lines, notice, .. })) => {
            assert!(lines[0].len() > 1);
            assert_eq!(notice, None);
        }
        step => panic!("{step:?}"),
    }
}

#[test]
fn git_is_asked_step_by_step() {
    let task = Task::GitScan { generation: 2 };
    let mut found = Findings::new();
    assert!(matches!(
        found.step(&task, b"/p", 1, true),
        WorkStep::FindScope
    ));
    found.scope = Some(None);
    for (question, output) in [
        (GitQuestion::Head, b"0\n".as_slice()),
        (
            GitQuestion::Changes(GitComparison::WorkingTree),
            b"M\0a.rs\0".as_slice(),
        ),
        (GitQuestion::States, b" M a.rs\0".as_slice()),
        (GitQuestion::Untracked, b"".as_slice()),
    ] {
        match found.step(&task, b"/p", 1, true) {
            WorkStep::AskGit(asked) => assert_eq!(asked, question),
            step => panic!("{step:?}"),
        }
        found.runs.answer(question, good(output));
    }
    match found.step(&task, b"/p", 1, true) {
        WorkStep::Finished(Some(WorkResult::GitScan {
            generation: 2,
            changes,
            error: None,
        })) => assert_eq!(changes[0].path, b"a.rs"),
        step => panic!("{step:?}"),
    }

    let task = Task::GitDiff {
        generation: 3,
        index: 0,
        change: GitChange {
            kind: ChangeKind::Modified,
            path: b"a.rs".to_vec(),
            old_path: None,
            untracked: false,
            comparison: GitComparison::WorkingTree,
            state: GitFileState::Unstaged,
        },
    };
    let mut found = Findings::new();
    match found.step(&task, b"/p", 1, true) {
        WorkStep::ShowChange(arguments) => {
            assert_eq!(arguments.last().map(Vec::as_slice), Some(b"a.rs".as_slice()));
        }
        step => panic!("{step:?}"),
    }
    found.shown = Some(GitRun::NotStarted("gone".to_owned()));
    match found.step(&task, b"/p", 1, true) {
        WorkStep::Finished(Some(WorkResult::GitDiff { lines, .. })) => {
            assert_eq!(lines[0].text, "Unable to run Git diff: gone");
        }
        step => panic!("{step:?}"),
    }
}

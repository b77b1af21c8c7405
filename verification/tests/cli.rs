use herdr_agent_diff::cli::{
    agent_identity, already_captured, command_named, event_action, required_word, status_pane,
    status_report, viewer_placement, viewer_root, viewer_target, Command, EventAction,
};
use herdr_agent_diff::context::PluginContext;
use herdr_agent_diff::error::Error;
use herdr_agent_diff::keys::{KeyCode, KeyEvent};
use herdr_agent_diff::model::{Manifest, MANIFEST_VERSION};
use herdr_agent_diff::queue::{Task, TaskQueue};
use herdr_agent_diff::schedule::{ask_first_scan, Schedule};
use herdr_agent_diff::state::ViewerPlacement;
use herdr_agent_diff::viewer::{Input, Viewer};

fn manifest() -> Manifest {
    Manifest {
        version: MANIFEST_VERSION,
        pane_id: "w1:p1".to_owned(),
        root: b"/p".to_vec(),
        agent: "codex".to_owned(),
        session_ref: Some("s1".to_owned()),
        captured_unix_ms: 12,
        files: Vec::new(),
        notices: vec!["note".to_owned()],
    }
}

fn strings(words: &[&str]) -> Vec<String> {
    words.iter().map(|word| (*word).to_owned()).collect()
}

#[test]
fn commands_are_named_by_a_word() {
    let named = |word: &str| command_named(word);
    assert_eq!(named("event"), Ok(Command::Event));
    assert_eq!(named("open"), Ok(Command::Open));
    assert_eq!(named("open-tab"), Ok(Command::OpenTab));
    assert_eq!(named("view"), Ok(Command::View));
    assert_eq!(named("status"), Ok(Command::Status));
    assert_eq!(
        named("close"),
        Err(Error::Message("unknown command: close".to_owned()))
    );
    assert_eq!(
        required_word(None),
        Err(Error::Message(
            "usage: herdr-agent-diff <event|open|open-tab|view|status>".to_owned()
        ))
    );
    assert_eq!(
        required_word(Some("open".to_owned())),
        Ok("open".to_owned())
    );
}

#[test]
fn events_are_told_apart() {
    let mut context = PluginContext::default();
    assert_eq!(
        event_action("pane.closed", &context, false),
        Err(Error::Message("event did not identify a pane".to_owned()))
    );
    context.pane_id = Some("w1:p1".to_owned());
    context.cwd = Some(b"/p".to_vec());
    let gone = Ok(EventAction::Remove("w1:p1".to_owned()));
    assert_eq!(event_action("pane.closed", &context, false), gone);
    assert_eq!(event_action("pane.exited", &context, false), gone);
    assert_eq!(event_action("pane.agent_detected", &context, true), gone);
    assert_eq!(
        event_action("pane.agent_detected", &context, false),
        Ok(EventAction::Detect {
            pane_id: "w1:p1".to_owned(),
            cwd: Some(b"/p".to_vec()),
        })
    );
    assert_eq!(
        event_action("pane.focused", &context, false),
        Ok(EventAction::Nothing)
    );
}

#[test]
fn a_session_is_captured_once() {
    let mut context = PluginContext::default();
    assert_eq!(
        agent_identity(&context, None, None),
        ("agent".to_owned(), None)
    );
    assert_eq!(
        agent_identity(&context, Some("codex".to_owned()), Some("s1".to_owned())),
        ("codex".to_owned(), Some("s1".to_owned()))
    );
    context.agent = Some("aider".to_owned());
    context.session_ref = Some("s2".to_owned());
    assert_eq!(
        agent_identity(&context, Some("codex".to_owned()), Some("s1".to_owned())),
        ("aider".to_owned(), Some("s2".to_owned()))
    );
    let session = Some("s1".to_owned());
    assert!(already_captured(
        &Some(manifest()),
        b"/p/",
        "codex",
        &session
    ));
    assert!(!already_captured(
        &Some(manifest()),
        b"/q",
        "codex",
        &session
    ));
    assert!(!already_captured(
        &Some(manifest()),
        b"/p",
        "other",
        &session
    ));
    assert!(!already_captured(&Some(manifest()), b"/p", "codex", &None));
    assert!(!already_captured(&None, b"/p", "codex", &session));
}

#[test]
fn a_viewer_is_told_its_pane_and_place() {
    assert_eq!(
        viewer_target(Some("w1:p1".to_owned())),
        Ok("w1:p1".to_owned())
    );
    assert_eq!(
        viewer_target(None),
        Err(Error::Message(
            "viewer target pane is unavailable".to_owned()
        ))
    );
    assert_eq!(
        viewer_placement(&Some("tab".to_owned())),
        ViewerPlacement::Tab
    );
    assert_eq!(
        viewer_placement(&Some("Tab".to_owned())),
        ViewerPlacement::Split
    );
    assert_eq!(viewer_placement(&None), ViewerPlacement::Split);
    assert_eq!(viewer_root(&Some(manifest())), Some(b"/p".to_vec()));
    assert_eq!(viewer_root(&None), None);
}

#[test]
fn a_status_says_how_things_stand() {
    assert_eq!(
        status_pane(&strings(&["-v", "--pane", "w1:p1"])),
        Ok("w1:p1".to_owned())
    );
    let missing = Err(Error::Message("status requires --pane <id>".to_owned()));
    assert_eq!(status_pane(&strings(&["--pane"])), missing);
    assert_eq!(status_pane(&Vec::new()), missing);
    assert_eq!(
        status_pane(&strings(&["--pane", "--pane"])),
        Ok("--pane".to_owned())
    );

    let report = status_report("w1:p1".to_owned(), Some(manifest()), true);
    assert_eq!(report.status(), "captured");
    assert_eq!(report.message(), None);
    let report = status_report("w1:p1".to_owned(), None, true);
    assert_eq!(report.status(), "capturing");
    assert_eq!(report.message(), Some("Capturing baseline…"));
    let report = status_report("w1:p1".to_owned(), None, false);
    assert_eq!(report.status(), "missing");
    assert_eq!(
        report.message(),
        Some("Restart this agent to capture changes from session start.")
    );
}

#[test]
fn bursts_of_changes_are_waited_out() {
    let mut schedule = Schedule::new(1_000);
    assert!(!schedule.take_refresh(9_000));
    schedule.files_changed(1_000);
    schedule.files_changed(1_100);
    assert!(!schedule.take_refresh(1_249));
    assert!(schedule.take_refresh(1_250));
    assert!(!schedule.take_refresh(1_500));
}

#[test]
fn a_capture_and_the_pane_are_looked_at_now_and_then() {
    let mut schedule = Schedule::new(0);
    assert!(!schedule.take_capture_poll(true, 249));
    assert!(!schedule.take_capture_poll(false, 250));
    assert!(schedule.take_capture_poll(true, 250));
    assert!(!schedule.take_capture_poll(true, 499));
    assert!(!schedule.take_liveness(1_999));
    assert!(schedule.take_liveness(2_000));
    assert!(!schedule.take_liveness(3_999));
}

#[test]
fn the_first_scan_needs_a_background_to_take_it() {
    let mut tasks = TaskQueue::new(8);
    assert_eq!(ask_first_scan(&mut tasks), Ok(()));
    assert!(matches!(tasks.try_recv(), Some(Task::Scan(1))));
    tasks.close();
    assert_eq!(
        ask_first_scan(&mut tasks),
        Err(Error::Message("background worker stopped".to_owned()))
    );
}

#[test]
fn a_viewer_catches_up_with_what_is_due() {
    let mut viewer = Viewer::new(
        None,
        true,
        "w1:p1".to_owned(),
        Some("no inotify".to_owned()),
        0,
    );
    assert_eq!(
        viewer.app.notices,
        ["watcher unavailable: no inotify; press r to refresh"]
    );
    let mut newest = 1;
    let mut tasks = TaskQueue::new(8);
    assert!(!viewer.catch_up(300, &mut newest, &mut tasks));
    assert!(tasks.try_recv().is_none());
    viewer.app.loading = false;
    viewer.watched(Ok(()), 400);
    assert!(!viewer.catch_up(540, &mut newest, &mut tasks));
    assert!(tasks.try_recv().is_none());
    assert!(viewer.catch_up(2_000, &mut newest, &mut tasks));
    assert!(matches!(tasks.try_recv(), Some(Task::Scan(2))));
    assert!(tasks.try_recv().is_none());
    assert_eq!(newest, 2);
    viewer.watched(Err("overflow".to_owned()), 2_100);
    assert_eq!(
        viewer.app.notices[1],
        "watcher error: overflow; press r to recover"
    );
}

#[test]
fn a_viewer_answers_to_the_terminal() {
    let mut viewer = Viewer::new(None, false, "w1:p1".to_owned(), None, 0);
    viewer.app.loading = false;
    let mut newest = 1;
    let mut tasks = TaskQueue::new(8);
    assert!(!viewer.respond(Input::Other, 5, &mut newest, &mut tasks));
    assert_eq!(viewer.app.now_millis, 5);
    assert!(!viewer.respond(Input::FocusGained, 6, &mut newest, &mut tasks));
    assert!(matches!(tasks.try_recv(), Some(Task::Scan(2))));
    let quit = KeyEvent {
        code: KeyCode::Char('q'),
        control: false,
        command: false,
    };
    assert!(viewer.respond(Input::Key(quit), 7, &mut newest, &mut tasks));
}

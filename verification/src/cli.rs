//! The commands of the program: which one is meant, and what each decides.
use vstd::prelude::*;

use crate::context::{ContextView, PluginContext};
use crate::error::{result_view, Error, ErrorView};
use crate::model::{copy_path, Manifest, ManifestView};
use crate::path::{components, same_path};
use crate::seqs::{option_view, views};
use crate::state::ViewerPlacement;
use crate::text::same_text;

verus! {

/// What the program is asked to do.
#[derive(Clone, Copy, Debug, PartialEq, Eq, Structural)]
pub enum Command {
    Event,
    Open,
    OpenTab,
    View,
    Status,
}

pub open spec fn command_word(command: Command) -> Seq<char> {
    match command {
        Command::Event => "event"@,
        Command::Open => "open"@,
        Command::OpenTab => "open-tab"@,
        Command::View => "view"@,
        Command::Status => "status"@,
    }
}

/// The word that names a command.
pub fn required_word(argument: Option<String>) -> (result: Result<String, Error>)
    ensures
        result_view(result) == (match option_view(argument) {
            Some(word) => Ok(word),
            None => Err(
                ErrorView::Message(
                    "usage: herdr-agent-diff <event|open|open-tab|view|status>"@,
                ),
            ),
        }),
{
    match argument {
        Some(word) => Ok(word),
        None => Err(
            Error::message("usage: herdr-agent-diff <event|open|open-tab|view|status>"),
        ),
    }
}

/// The command under a word.
pub open spec fn command_under(word: Seq<char>) -> Result<Command, ErrorView> {
    if word == "event"@ {
        Ok(Command::Event)
    } else if word == "open"@ {
        Ok(Command::Open)
    } else if word == "open-tab"@ {
        Ok(Command::OpenTab)
    } else if word == "view"@ {
        Ok(Command::View)
    } else if word == "status"@ {
        Ok(Command::Status)
    } else {
        Err(ErrorView::Message("unknown command: "@ + word))
    }
}

/// The command under a word.
pub fn command_named(word: &str) -> (result: Result<Command, Error>)
    ensures
        (match result {
            Ok(command) => Ok(command),
            Err(error) => Err(error@),
        }) == command_under(word@),
{
    if same_text(word, "event") {
        Ok(Command::Event)
    } else if same_text(word, "open") {
        Ok(Command::Open)
    } else if same_text(word, "open-tab") {
        Ok(Command::OpenTab)
    } else if same_text(word, "view") {
        Ok(Command::View)
    } else if same_text(word, "status") {
        Ok(Command::Status)
    } else {
        let mut text = "unknown command: ".to_owned();
        text.append(word);
        Err(Error::Message(text))
    }
}

/// Every command has a word of its own.
pub proof fn law_commands_have_words(command: Command)
    ensures
        command_under(command_word(command)) == Ok::<Command, ErrorView>(command),
{
    reveal_strlit("event");
    reveal_strlit("open");
    reveal_strlit("open-tab");
    reveal_strlit("view");
    reveal_strlit("status");
    assert("event"@[0] == 'e');
    assert("open"@[0] == 'o');
    assert("open-tab"@[0] == 'o');
    assert("view"@[0] == 'v');
    assert("status"@[0] == 's');
    assert("open"@.len() == 4);
    assert("open-tab"@.len() == 8);
}

/// What an event of the host asks for.
#[derive(Debug, PartialEq, Eq)]
pub enum EventAction {
    /// Forget everything about the pane.
    Remove(String),
    /// Look at the agent in the pane, whose directory may be known.
    Detect { pane_id: String, cwd: Option<Vec<u8>> },
    Nothing,
}

pub ghost enum EventActionView {
    Remove(Seq<char>),
    Detect { pane_id: Seq<char>, cwd: Option<Seq<u8>> },
    Nothing,
}

impl View for EventAction {
    type V = EventActionView;

    open spec fn view(&self) -> EventActionView {
        match self {
            EventAction::Remove(pane_id) => EventActionView::Remove(pane_id@),
            EventAction::Detect { pane_id, cwd } => EventActionView::Detect {
                pane_id: pane_id@,
                cwd: option_view(*cwd),
            },
            EventAction::Nothing => EventActionView::Nothing,
        }
    }
}

/// What an event asks for: a pane that closed, exited or let its agent go is
/// forgotten, and one in which an agent came up is looked at.
pub open spec fn action_for(event: Seq<char>, context: ContextView, released: bool) -> Result<
    EventActionView,
    ErrorView,
> {
    match context.pane_id {
        None => Err(ErrorView::Message("event did not identify a pane"@)),
        Some(pane_id) => Ok(
            if event == "pane.closed"@ || event == "pane.exited"@ || released {
                EventActionView::Remove(pane_id)
            } else if event == "pane.agent_detected"@ {
                EventActionView::Detect { pane_id, cwd: context.cwd }
            } else {
                EventActionView::Nothing
            },
        ),
    }
}

/// What an event asks for.
pub fn event_action(event: &str, context: &PluginContext, released: bool) -> (result: Result<
    EventAction,
    Error,
>)
    ensures
        result_view(result) == action_for(event@, context@, released),
{
    let pane_id = match &context.pane_id {
        None => {
            return Err(Error::message("event did not identify a pane"));
        },
        Some(pane_id) => pane_id.clone(),
    };
    if same_text(event, "pane.closed") || same_text(event, "pane.exited") || released {
        return Ok(EventAction::Remove(pane_id));
    }
    if same_text(event, "pane.agent_detected") {
        let cwd = match &context.cwd {
            Some(path) => Some(copy_path(path)),
            None => None,
        };
        return Ok(EventAction::Detect { pane_id, cwd });
    }
    Ok(EventAction::Nothing)
}

/// An agent and its session: what the event says first, what the host reports
/// second.
pub open spec fn identity_of(
    context: ContextView,
    agent: Option<Seq<char>>,
    session: Option<Seq<char>>,
) -> (Seq<char>, Option<Seq<char>>) {
    (
        match context.agent {
            Some(name) => name,
            None => match agent {
                Some(name) => name,
                None => "agent"@,
            },
        },
        match context.session_ref {
            Some(name) => Some(name),
            None => session,
        },
    )
}

/// The agent in a pane and its session, from the event and from what the host
/// reports.
pub fn agent_identity(
    context: &PluginContext,
    reported_agent: Option<String>,
    reported_session: Option<String>,
) -> (identity: (String, Option<String>))
    ensures
        (identity.0@, option_view(identity.1)) == identity_of(
            context@,
            option_view(reported_agent),
            option_view(reported_session),
        ),
{
    let agent = match &context.agent {
        Some(name) => name.clone(),
        None => match reported_agent {
            Some(name) => name,
            None => "agent".to_owned(),
        },
    };
    let session = match &context.session_ref {
        Some(name) => Some(name.clone()),
        None => reported_session,
    };
    (agent, session)
}

/// Whether a baseline is that of the agent and the session in the directory.
pub open spec fn is_baseline_of(
    manifest: Option<ManifestView>,
    root: Seq<u8>,
    agent: Seq<char>,
    session_ref: Option<Seq<char>>,
) -> bool {
    match manifest {
        Some(found) => components(found.root) == components(root) && found.agent == agent
            && found.session_ref == session_ref,
        None => false,
    }
}

fn same_optional_text(a: &Option<String>, b: &Option<String>) -> (same: bool)
    ensures
        same == (option_view(*a) == option_view(*b)),
{
    match (a, b) {
        (Some(x), Some(y)) => same_text(x.as_str(), y.as_str()),
        (None, None) => true,
        _ => false,
    }
}

/// Whether there is a baseline of the agent and the session in the directory, so
/// that none is to be captured.
pub fn already_captured(
    manifest: &Option<Manifest>,
    root: &[u8],
    agent: &str,
    session_ref: &Option<String>,
) -> (captured: bool)
    ensures
        captured == is_baseline_of(
            option_view(*manifest),
            root@,
            agent@,
            option_view(*session_ref),
        ),
{
    match manifest {
        Some(found) => same_path(&found.root, root) && same_text(found.agent.as_str(), agent)
            && same_optional_text(&found.session_ref, session_ref),
        None => false,
    }
}

/// The pane that a viewer is for, from the value of
/// `HERDR_AGENT_DIFF_TARGET_PANE`.
pub fn viewer_target(value: Option<String>) -> (result: Result<String, Error>)
    ensures
        result_view(result) == (match option_view(value) {
            Some(pane_id) => Ok(pane_id),
            None => Err(ErrorView::Message("viewer target pane is unavailable"@)),
        }),
{
    match value {
        Some(pane_id) => Ok(pane_id),
        None => Err(Error::message("viewer target pane is unavailable")),
    }
}

/// Where a viewer stands, from the value of
/// `HERDR_AGENT_DIFF_VIEWER_PLACEMENT`.
pub fn viewer_placement(value: &Option<String>) -> (placement: ViewerPlacement)
    ensures
        placement == (if option_view(*value) == Some("tab"@) {
            ViewerPlacement::Tab
        } else {
            ViewerPlacement::Split
        }),
{
    if let Some(text) = value {
        if same_text(text.as_str(), "tab") {
            return ViewerPlacement::Tab;
        }
    }
    ViewerPlacement::Split
}

/// The directory that a viewer shows: that of the baseline, or else one that the
/// host is to be asked for.
pub fn viewer_root(manifest: &Option<Manifest>) -> (root: Option<Vec<u8>>)
    ensures
        option_view(root) == (match option_view(*manifest) {
            Some(found) => Some(found.root),
            None => None,
        }),
{
    match manifest {
        Some(found) => Some(copy_path(&found.root)),
        None => None,
    }
}

/// What stands behind the first `--pane` that anything stands behind.
pub open spec fn pane_argument(arguments: Seq<Seq<char>>) -> Option<Seq<char>>
    decreases arguments.len(),
{
    if arguments.len() < 2 {
        None
    } else if arguments[0] == "--pane"@ {
        Some(arguments[1])
    } else {
        pane_argument(arguments.skip(1))
    }
}

/// The pane whose status is asked for.
pub fn status_pane(arguments: &Vec<String>) -> (result: Result<String, Error>)
    ensures
        result_view(result) == (match pane_argument(views(arguments@)) {
            Some(pane_id) => Ok(pane_id),
            None => Err(ErrorView::Message("status requires --pane <id>"@)),
        }),
{
    let ghost all = views(arguments@);
    let count = arguments.len();
    let mut i: usize = 0;
    proof {
        assert(all.skip(0) =~= all);
    }
    while count - i >= 2
        invariant
            i <= count,
            count == arguments@.len(),
            all == views(arguments@),
            all.len() == count,
            pane_argument(all) == pane_argument(all.skip(i as int)),
        decreases count - i,
    {
        let ghost rest = all.skip(i as int);
        proof {
            assert(rest[0] == arguments@[i as int]@);
            assert(rest[1] == arguments@[i + 1]@);
            assert(rest.skip(1) =~= all.skip(i + 1));
        }
        if same_text(arguments[i].as_str(), "--pane") {
            return Ok(arguments[i + 1].clone());
        }
        i += 1;
    }
    Err(Error::message("status requires --pane <id>"))
}

/// How things stand with the baseline of a pane.
#[derive(Debug, PartialEq, Eq)]
pub enum StatusReport {
    Captured {
        pane_id: String,
        capturing: bool,
        root: Vec<u8>,
        agent: String,
        session_ref: Option<String>,
        captured_unix_ms: u64,
        files: usize,
        notices: Vec<String>,
    },
    Capturing { pane_id: String },
    Missing { pane_id: String },
}

pub ghost enum StatusView {
    Captured {
        pane_id: Seq<char>,
        capturing: bool,
        root: Seq<u8>,
        agent: Seq<char>,
        session_ref: Option<Seq<char>>,
        captured_unix_ms: u64,
        files: int,
        notices: Seq<Seq<char>>,
    },
    Capturing { pane_id: Seq<char> },
    Missing { pane_id: Seq<char> },
}

impl View for StatusReport {
    type V = StatusView;

    open spec fn view(&self) -> StatusView {
        match self {
            StatusReport::Captured {
                pane_id,
                capturing,
                root,
                agent,
                session_ref,
                captured_unix_ms,
                files,
                notices,
            } => StatusView::Captured {
                pane_id: pane_id@,
                capturing: *capturing,
                root: root@,
                agent: agent@,
                session_ref: option_view(*session_ref),
                captured_unix_ms: *captured_unix_ms,
                files: *files as int,
                notices: views(notices@),
            },
            StatusReport::Capturing { pane_id } => StatusView::Capturing { pane_id: pane_id@ },
            StatusReport::Missing { pane_id } => StatusView::Missing { pane_id: pane_id@ },
        }
    }
}

pub open spec fn status_for(
    pane_id: Seq<char>,
    manifest: Option<ManifestView>,
    capturing: bool,
) -> StatusView {
    match manifest {
        Some(found) => StatusView::Captured {
            pane_id,
            capturing,
            root: found.root,
            agent: found.agent,
            session_ref: found.session_ref,
            captured_unix_ms: found.captured_unix_ms,
            files: found.files.len() as int,
            notices: found.notices,
        },
        None => if capturing {
            StatusView::Capturing { pane_id }
        } else {
            StatusView::Missing { pane_id }
        },
    }
}

/// How things stand with the baseline of a pane.
pub fn status_report(pane_id: String, manifest: Option<Manifest>, capturing: bool) -> (report:
    StatusReport)
    ensures
        report@ == status_for(pane_id@, option_view(manifest), capturing),
{
    match manifest {
        Some(found) => {
            proof {
                assert(views(found.files@).len() == found.files@.len());
            }
            StatusReport::Captured {
                pane_id,
                capturing,
                root: found.root,
                agent: found.agent,
                session_ref: found.session_ref,
                captured_unix_ms: found.captured_unix_ms,
                files: found.files.len(),
                notices: found.notices,
            }
        },
        None => if capturing {
            StatusReport::Capturing { pane_id }
        } else {
            StatusReport::Missing { pane_id }
        },
    }
}

impl StatusReport {
    /// The status in a word.
    pub fn status(&self) -> (word: &'static str)
        ensures
            word@ == (match self@ {
                StatusView::Captured { .. } => "captured"@,
                StatusView::Capturing { .. } => "capturing"@,
                StatusView::Missing { .. } => "missing"@,
            }),
    {
        match self {
            StatusReport::Captured { .. } => "captured",
            StatusReport::Capturing { .. } => "capturing",
            StatusReport::Missing { .. } => "missing",
        }
    }

    /// What is said where there is no baseline.
    pub fn message(&self) -> (text: Option<&'static str>)
        ensures
            (match text {
                Some(text) => Some(text@),
                None => None,
            }) == (match self@ {
                StatusView::Captured { .. } => None,
                StatusView::Capturing { .. } => Some("Capturing baseline…"@),
                StatusView::Missing { .. } => Some(
                    "Restart this agent to capture changes from session start."@,
                ),
            }),
    {
        match self {
            StatusReport::Captured { .. } => None,
            StatusReport::Capturing { .. } => Some("Capturing baseline…"),
            StatusReport::Missing { .. } => Some(
                "Restart this agent to capture changes from session start.",
            ),
        }
    }
}

/// What an event asks for: a pane that was closed, that exited or whose agent let go is
/// forgotten, whatever else is known of it; where an agent was detected and stays, the
/// pane is looked at, with the directory that the event tells of; any other event asks
/// for nothing, and one of no pane is refused.
pub proof fn law_events_ask_for_what_they_tell(
    event: Seq<char>,
    context: ContextView,
    released: bool,
    pane: Seq<char>,
)
    ensures
        context.pane_id is None <==> action_for(event, context, released) is Err,
        context.pane_id == Some(pane) ==> {
            let action = action_for(event, context, released)->Ok_0;
            &&& action == EventActionView::Remove(pane) <==> released || event == "pane.closed"@
                || event == "pane.exited"@
            &&& action is Detect <==> !released && event == "pane.agent_detected"@
            &&& action is Detect ==> action == (EventActionView::Detect {
                pane_id: pane,
                cwd: context.cwd,
            })
        },
{
    reveal_strlit("pane.closed");
    reveal_strlit("pane.exited");
    reveal_strlit("pane.agent_detected");
    assert("pane.closed"@.len() == 11);
    assert("pane.exited"@.len() == 11);
    assert("pane.agent_detected"@.len() == 19);
}

/// The event knows better than the host who the agent is and which session it has; where
/// neither knows, there is still a word for the agent.
pub proof fn law_the_event_knows_the_agent_better(
    context: ContextView,
    agent: Option<Seq<char>>,
    session: Option<Seq<char>>,
)
    ensures
        ({
            let (who, which) = identity_of(context, agent, session);
            &&& context.agent is Some ==> Some(who) == context.agent
            &&& context.agent is None && agent is Some ==> Some(who) == agent
            &&& context.agent is None && agent is None ==> who == "agent"@
            &&& context.session_ref is Some ==> which == context.session_ref
            &&& context.session_ref is None ==> which == session
        }),
{
}

/// A baseline serves again only for the same agent, in the same session and directory; a
/// change of any of the three asks for a new one.
pub proof fn law_a_new_session_asks_for_a_new_baseline(
    manifest: ManifestView,
    root: Seq<u8>,
    agent: Seq<char>,
    session_ref: Option<Seq<char>>,
)
    ensures
        is_baseline_of(Some(manifest), manifest.root, manifest.agent, manifest.session_ref),
        !is_baseline_of(None, root, agent, session_ref),
        is_baseline_of(Some(manifest), root, agent, session_ref) ==> agent == manifest.agent
            && session_ref == manifest.session_ref && components(root) == components(
            manifest.root,
        ),
{
}

/// What stands behind the first `--pane` is the pane; without one, or with nothing
/// behind it, there is none.
pub proof fn law_the_pane_stands_behind_its_option(arguments: Seq<Seq<char>>, k: int)
    ensures
        0 <= k && k + 1 < arguments.len() && arguments[k] == "--pane"@ && (forall|i: int|
            0 <= i < k ==> #[trigger] arguments[i] != "--pane"@) ==> pane_argument(arguments)
            == Some(arguments[k + 1]),
        (forall|i: int|
            0 <= i < arguments.len() - 1 ==> #[trigger] arguments[i] != "--pane"@)
            ==> pane_argument(arguments) is None,
    decreases arguments.len(),
{
    if arguments.len() >= 2 {
        let rest = arguments.skip(1);
        if arguments[0] != "--pane"@ {
            law_the_pane_stands_behind_its_option(rest, k - 1);
            if k + 1 < arguments.len() && forall|i: int|
                0 <= i < k ==> #[trigger] arguments[i] != "--pane"@ {
                assert forall|i: int| 0 <= i < k - 1 implies #[trigger] rest[i] != "--pane"@ by {
                    assert(rest[i] == arguments[i + 1]);
                }
            }
            if forall|i: int|
                0 <= i < arguments.len() - 1 ==> #[trigger] arguments[i] != "--pane"@ {
                assert forall|i: int| 0 <= i < rest.len() - 1 implies #[trigger] rest[i]
                    != "--pane"@ by {
                    assert(rest[i] == arguments[i + 1]);
                }
            }
        } else if k > 0 {
            assert(arguments[0] == "--pane"@);
        }
    }
}

/// The status tells of the pane that was asked about: of the baseline that there is, as
/// it was captured, of a capture that goes on, or that there is neither.
pub proof fn law_the_status_tells_of_the_baseline(
    pane: Seq<char>,
    manifest: Option<ManifestView>,
    capturing: bool,
)
    ensures
        ({
            let status = status_for(pane, manifest, capturing);
            &&& status is Captured <==> manifest is Some
            &&& status == (StatusView::Capturing { pane_id: pane }) <==> manifest is None
                && capturing
            &&& status == (StatusView::Missing { pane_id: pane }) <==> manifest is None
                && !capturing
            &&& manifest matches Some(found) ==> {
                &&& status->Captured_pane_id == pane
                &&& status->Captured_capturing == capturing
                &&& status->root == found.root
                &&& status->agent == found.agent
                &&& status->session_ref == found.session_ref
                &&& status->captured_unix_ms == found.captured_unix_ms
                &&& status->files == found.files.len()
                &&& status->notices == found.notices
            }
        }),
{
}

} // verus!

//! The loop of the viewer: how it answers to what comes in.
use vstd::prelude::*;

use crate::app::{after_result, app_start, App, AppView, Mode};
use crate::keys::{keyed, KeyEvent};
use crate::model::{Manifest, ManifestView};
use crate::pointer::{moused, MouseEvent};
use crate::queue::{takes, QueueView, ScanResult, TaskQueue, TaskView, WorkResult};
use crate::requests::{after_refresh, after_request};
use crate::schedule::{is_quiet, passed, Schedule, CAPTURE_POLL_MILLIS, LIVENESS_MILLIS};
use crate::selection::layout_for;
use crate::seqs::{option_view, views};
use crate::sets::Tab;

verus! {

/// The viewer and what it remembers of the clock.
#[derive(Debug)]
pub struct Viewer {
    pub app: App,
    pub schedule: Schedule,
}

pub ghost struct ViewerView {
    pub app: AppView,
    pub schedule: Schedule,
}

impl View for Viewer {
    type V = ViewerView;

    open spec fn view(&self) -> ViewerView {
        ViewerView { app: self.app@, schedule: self.schedule }
    }
}

/// What the terminal reports.
#[derive(Clone, Copy, Debug, PartialEq, Eq, Structural)]
pub enum Input {
    Key(KeyEvent),
    Mouse(MouseEvent),
    FocusGained,
    Other,
}

/// The viewer as it begins, with a notice where the files cannot be watched.
pub open spec fn viewer_start(
    manifest: Option<ManifestView>,
    capturing: bool,
    target_pane_id: Seq<char>,
    watcher_error: Option<Seq<char>>,
    now: u64,
) -> ViewerView {
    let app = app_start(manifest, capturing, target_pane_id);
    ViewerView {
        app: match watcher_error {
            Some(error) => AppView {
                notices: seq!["watcher unavailable: "@ + error + "; press r to refresh"@],
                ..app
            },
            None => app,
        },
        schedule: Schedule { dirty_since: None, last_liveness: now, last_capture_poll: now },
    }
}

/// The viewer, the newest generation and the queue once it has been seen to what
/// is due, and whether it is to be asked if the pane is still there: a scan where
/// the files have been quiet since they changed, and one now and then while a
/// baseline is captured.
pub open spec fn caught_up(viewer: ViewerView, now: u64, newest: u64, queue: QueueView) -> (
    ViewerView,
    u64,
    QueueView,
    bool,
) {
    let quiet = is_quiet(viewer.schedule, now);
    let (first, generation, filled) = if quiet {
        after_refresh(viewer.app, newest, queue)
    } else {
        (viewer.app, newest, queue)
    };
    let poll = first.capturing && passed(
        now,
        viewer.schedule.last_capture_poll,
        CAPTURE_POLL_MILLIS,
    );
    let (second, last, rest) = if poll {
        after_refresh(first, generation, filled)
    } else {
        (first, generation, filled)
    };
    let look = passed(now, viewer.schedule.last_liveness, LIVENESS_MILLIS);
    (
        ViewerView {
            app: second,
            schedule: Schedule {
                dirty_since: if quiet {
                    None
                } else {
                    viewer.schedule.dirty_since
                },
                last_capture_poll: if poll {
                    now
                } else {
                    viewer.schedule.last_capture_poll
                },
                last_liveness: if look {
                    now
                } else {
                    viewer.schedule.last_liveness
                },
            },
        },
        last,
        rest,
        look,
    )
}

impl Viewer {
    /// The viewer as it begins.
    pub fn new(
        manifest: Option<Manifest>,
        capturing: bool,
        target_pane_id: String,
        watcher_error: Option<String>,
        now: u64,
    ) -> (viewer: Viewer)
        ensures
            viewer@ == viewer_start(
                option_view(manifest),
                capturing,
                target_pane_id@,
                option_view(watcher_error),
                now,
            ),
            viewer@.app.well_formed(),
    {
        let mut app = App::new(manifest, capturing, target_pane_id);
        if let Some(error) = watcher_error {
            app.watcher_unavailable(error.as_str());
            proof {
                assert(app@.notices =~= seq![
                    "watcher unavailable: "@ + error@ + "; press r to refresh"@,
                ]);
            }
        }
        Viewer { app, schedule: Schedule::new(now) }
    }

    /// Takes in what came of a task, and asks for what is selected.
    pub fn take_result(&mut self, result: WorkResult, tasks: &mut TaskQueue)
        requires
            old(self)@.app.well_formed(),
        ensures
            (final(self)@.app, final(tasks)@) == after_request(
                after_result(old(self)@.app, result),
                old(tasks)@,
            ),
            final(self)@.schedule == old(self)@.schedule,
            final(self)@.app.well_formed(),
    {
        self.app.apply_result(result);
        self.app.request_selected(tasks);
    }

    /// Notes that files changed, or that watching them failed.
    pub fn watched(&mut self, event: Result<(), String>, now: u64)
        requires
            old(self)@.app.well_formed(),
        ensures
            final(self)@ == (ViewerView {
                app: match event {
                    Ok(()) => old(self)@.app,
                    Err(error) => AppView {
                        notices: old(self)@.app.notices.push(
                            "watcher error: "@ + error@ + "; press r to recover"@,
                        ),
                        ..old(self)@.app
                    },
                },
                schedule: Schedule { dirty_since: Some(now), ..old(self)@.schedule },
            }),
            final(self)@.app.well_formed(),
    {
        if let Err(error) = event {
            self.app.watcher_failed(error.as_str());
        }
        self.schedule.files_changed(now);
    }

    /// Sees to what is due; `true` where it is to be asked if the pane is still
    /// there.
    pub fn catch_up(&mut self, now: u64, newest: &mut u64, tasks: &mut TaskQueue) -> (look: bool)
        requires
            old(self)@.app.well_formed(),
        ensures
            (final(self)@, *final(newest), final(tasks)@, look) == caught_up(
                old(self)@,
                now,
                *old(newest),
                old(tasks)@,
            ),
            final(self)@.app.well_formed(),
    {
        if self.schedule.take_refresh(now) {
            self.app.refresh(newest, tasks);
        }
        if self.schedule.take_capture_poll(self.app.capturing, now) {
            self.app.refresh(newest, tasks);
        }
        self.schedule.take_liveness(now)
    }

    /// Answers to the terminal; `true` where the viewer is to close.
    pub fn respond(&mut self, input: Input, now: u64, newest: &mut u64, tasks: &mut TaskQueue)
        -> (close: bool)
        requires
            old(self)@.app.well_formed(),
        ensures
            final(self)@.schedule == old(self)@.schedule,
            final(self)@.app.well_formed(),
            ({
                let app = AppView { now_millis: now, ..old(self)@.app };
                let after = (final(self)@.app, *final(newest), final(tasks)@, close);
                match input {
                    Input::Key(key) => after == keyed(app, key, *old(newest), old(tasks)@),
                    Input::Mouse(mouse) => *final(newest) == *old(newest) && !close && exists|
                        layout: crate::layout::UiLayout,
                    |
                        #[trigger] layout_for(app, app.viewport, layout) && (
                        final(self)@.app,
                        final(tasks)@,
                        ) == moused(app, layout, mouse, old(tasks)@),
                    Input::FocusGained => {
                        let (scanned, generation, filled) = after_refresh(
                            app,
                            *old(newest),
                            old(tasks)@,
                        );
                        after == (scanned, generation, filled, false)
                    },
                    Input::Other => after == (app, *old(newest), old(tasks)@, false),
                }
            }),
    {
        self.app.now_millis = now;
        match input {
            Input::Key(key) => self.app.handle_key(key, newest, tasks),
            Input::Mouse(mouse) => {
                self.app.handle_mouse(mouse, tasks);
                false
            },
            Input::FocusGained => {
                self.app.refresh(newest, tasks);
                false
            },
            Input::Other => false,
        }
    }
}

/// While a scan is under way nothing that comes due asks for another.
pub proof fn law_nothing_due_asks_twice(
    viewer: ViewerView,
    now: u64,
    newest: u64,
    queue: QueueView,
)
    ensures
        viewer.app.loading ==> ({
            let (next, generation, rest, _) = caught_up(viewer, now, newest, queue);
            next.app == viewer.app && generation == newest && rest == queue
        }),
        caught_up(viewer, now, newest, queue).2.tasks.len() <= queue.tasks.len() + 1,
{
}

/// What is due is seen to when it is due and not before: a scan a hundred and fifty
/// milliseconds after the last change, another look at a capture a quarter of a second
/// after the last, and a look for the pane two seconds after the last.
pub proof fn law_what_is_due_is_seen_to(
    viewer: ViewerView,
    now: u64,
    newest: u64,
    queue: QueueView,
)
    requires
        viewer.schedule.last_capture_poll <= now,
        viewer.schedule.last_liveness <= now,
    ensures
        ({
            let (next, generation, rest, look) = caught_up(viewer, now, newest, queue);
            let schedule = viewer.schedule;
            let dirty = schedule.dirty_since is Some && now >= schedule.dirty_since->0 + 150;
            let poll = viewer.app.capturing && now - schedule.last_capture_poll >= 250;
            let asked = rest.tasks.len() == queue.tasks.len() + 1 && rest.tasks.last()
                == TaskView::Scan(next.app.generation) && next.app.loading && generation
                == next.app.generation;
            &&& look <==> now - schedule.last_liveness >= 2000
            &&& look ==> next.schedule.last_liveness == now
            &&& !look ==> next.schedule.last_liveness == schedule.last_liveness
            &&& !viewer.app.loading && takes(queue) ==> (asked <==> dirty || poll)
            &&& !dirty && !poll ==> next.app == viewer.app && rest == queue && generation
                == newest
            &&& dirty ==> next.schedule.dirty_since is None
            &&& !dirty ==> next.schedule.dirty_since == schedule.dirty_since
            &&& poll ==> next.schedule.last_capture_poll == now
        }),
{
}

/// The first scan is the one that the viewer begins by waiting for: its answer is taken
/// in, and until then nothing else is asked for.
pub proof fn law_the_viewer_waits_for_its_first_scan(
    manifest: Option<ManifestView>,
    capturing: bool,
    target: Seq<char>,
    watcher_error: Option<Seq<char>>,
    now: u64,
    newest: u64,
    queue: QueueView,
    scan: ScanResult,
)
    requires
        scan.generation == 1,
        scan.error is None,
    ensures
        ({
            let viewer = viewer_start(manifest, capturing, target, watcher_error, now);
            let after = after_result(viewer.app, WorkResult::Scan(Box::new(scan)));
            &&& viewer.app.manifest == manifest
            &&& viewer.app.capturing == capturing
            &&& viewer.app.target_pane_id == target
            &&& viewer.app.tab == Tab::Changes
            &&& viewer.app.mode == Mode::Normal
            &&& viewer.app.loading
            &&& viewer.app.notices.len() == if watcher_error is Some {
                1nat
            } else {
                0
            }
            &&& after_refresh(viewer.app, newest, queue) == (viewer.app, newest, queue)
            &&& after_request(viewer.app, queue) == (viewer.app, queue)
            &&& !after.loading
            &&& after.files == views(scan.files@)
            &&& after.changes == views(scan.changes@)
        }),
{
}

} // verus!

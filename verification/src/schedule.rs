//! When the viewer does what it does unasked.
use vstd::prelude::*;

use crate::app::{App, AppView};
use crate::error::{Error, ErrorView};
use crate::layout::minus;
use crate::queue::{sent, takes, Task, TaskQueue, TaskView};
use crate::seqs::group_views;
use crate::text::join3;

verus! {

/// Milliseconds of quiet after the files changed before they are scanned.
pub const QUIET_MILLIS: u64 = 150;

/// Milliseconds between two looks at a capture that is under way.
pub const CAPTURE_POLL_MILLIS: u64 = 250;

/// Milliseconds between two looks at whether the pane is still there.
pub const LIVENESS_MILLIS: u64 = 2000;

/// Milliseconds that an event of the terminal is waited for.
pub const INPUT_POLL_MILLIS: u64 = 50;

/// How many tasks may wait for the background.
pub const TASK_LIMIT: usize = 8;

/// What the viewer remembers of the clock, in milliseconds.
#[derive(Clone, Copy, Debug, PartialEq, Eq, Structural)]
pub struct Schedule {
    /// When the files last changed, where they have not been scanned since.
    pub dirty_since: Option<u64>,
    pub last_liveness: u64,
    pub last_capture_poll: u64,
}

pub open spec fn passed(now: u64, since: u64, millis: u64) -> bool {
    minus(now as int, since as int) >= millis
}

/// Whether the files have been quiet for long enough.
pub open spec fn is_quiet(schedule: Schedule, now: u64) -> bool {
    schedule.dirty_since matches Some(since) && passed(now, since, QUIET_MILLIS)
}

impl Schedule {
    pub fn new(now: u64) -> (schedule: Schedule)
        ensures
            schedule == (Schedule {
                dirty_since: None,
                last_liveness: now,
                last_capture_poll: now,
            }),
    {
        Schedule { dirty_since: None, last_liveness: now, last_capture_poll: now }
    }

    /// Notes that the files changed.
    pub fn files_changed(&mut self, now: u64)
        ensures
            *final(self) == (Schedule { dirty_since: Some(now), ..*old(self) }),
    {
        self.dirty_since = Some(now);
    }

    /// Whether the files are to be scanned because they changed; what changed is
    /// then forgotten.
    pub fn take_refresh(&mut self, now: u64) -> (due: bool)
        ensures
            due == is_quiet(*old(self), now),
            *final(self) == (if due {
                Schedule { dirty_since: None, ..*old(self) }
            } else {
                *old(self)
            }),
    {
        if let Some(since) = self.dirty_since {
            if now.saturating_sub(since) >= QUIET_MILLIS {
                self.dirty_since = None;
                return true;
            }
        }
        false
    }

    /// Whether a capture that is under way is to be looked at.
    pub fn take_capture_poll(&mut self, capturing: bool, now: u64) -> (due: bool)
        ensures
            due == (capturing && passed(now, old(self).last_capture_poll, CAPTURE_POLL_MILLIS)),
            *final(self) == (if due {
                Schedule { last_capture_poll: now, ..*old(self) }
            } else {
                *old(self)
            }),
    {
        if capturing && now.saturating_sub(self.last_capture_poll) >= CAPTURE_POLL_MILLIS {
            self.last_capture_poll = now;
            return true;
        }
        false
    }

    /// Whether it is to be asked if the pane is still there.
    pub fn take_liveness(&mut self, now: u64) -> (due: bool)
        ensures
            due == passed(now, old(self).last_liveness, LIVENESS_MILLIS),
            *final(self) == (if due {
                Schedule { last_liveness: now, ..*old(self) }
            } else {
                *old(self)
            }),
    {
        if now.saturating_sub(self.last_liveness) >= LIVENESS_MILLIS {
            self.last_liveness = now;
            return true;
        }
        false
    }
}

/// A burst of changes is waited out: until the files have been quiet for
/// [`QUIET_MILLIS`] after the last of them nothing is due, and from then on a scan
/// is.
pub proof fn law_bursts_are_waited_out(schedule: Schedule, changed: u64, now: u64)
    requires
        changed <= now,
    ensures
        is_quiet(Schedule { dirty_since: Some(changed), ..schedule }, now) <==> now - changed
            >= QUIET_MILLIS,
        !is_quiet(Schedule { dirty_since: None, ..schedule }, now),
{
}

/// Asks for the first scan.
pub fn ask_first_scan(tasks: &mut TaskQueue) -> (result: Result<(), Error>)
    ensures
        final(tasks)@ == sent(old(tasks)@, TaskView::Scan(1)),
        (match result {
            Ok(()) => None,
            Err(error) => Some(error@),
        }) == (if takes(old(tasks)@) {
            None
        } else {
            Some(ErrorView::Message("background worker stopped"@))
        }),
{
    if tasks.try_send(Task::Scan(1)) {
        Ok(())
    } else {
        Err(Error::message("background worker stopped"))
    }
}

impl App {
    /// Notes that the files cannot be watched.
    pub fn watcher_unavailable(&mut self, error: &str)
        ensures
            final(self)@ == (AppView {
                notices: old(self)@.notices.push(
                    "watcher unavailable: "@ + error@ + "; press r to refresh"@,
                ),
                ..old(self)@
            }),
    {
        broadcast use group_views;

        self.notices.push(join3("watcher unavailable: ", error, "; press r to refresh"));
    }

    /// Notes that the watcher failed.
    pub fn watcher_failed(&mut self, error: &str)
        ensures
            final(self)@ == (AppView {
                notices: old(self)@.notices.push(
                    "watcher error: "@ + error@ + "; press r to recover"@,
                ),
                ..old(self)@
            }),
    {
        broadcast use group_views;

        self.notices.push(join3("watcher error: ", error, "; press r to recover"));
    }
}

/// A length of time has passed if and only if the clock stands at least that much later;
/// a clock that has gone back lets none pass but the empty one.
pub proof fn law_time_passes(now: u64, since: u64, millis: u64)
    ensures
        since <= now ==> (passed(now, since, millis) <==> now - since >= millis),
        since > now ==> (passed(now, since, millis) <==> millis == 0),
{
}

/// Changed files are scanned once they have been quiet for a while: a hundred and
/// fifty milliseconds without another change, neither before nor later.
pub proof fn law_quiet_files_are_scanned(schedule: Schedule, now: u64)
    ensures
        is_quiet(schedule, now) <==> schedule.dirty_since is Some && now
            >= schedule.dirty_since->0 + 150,
{
}

} // verus!

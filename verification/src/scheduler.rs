//! The recording scheduler's decisions, one tick at a time: which recordings end, which
//! start, and what each tick reports. The scheduler itself owns the database and the
//! recording processes, and asks these questions of what it finds.

use vstd::prelude::*;
use crate::dvr::RecordingState;
use crate::text::owned;

verus! {

broadcast use vstd::string::group_string_axioms;

/// What one tick did, for the UI.
#[derive(Debug, Clone, Default, PartialEq, Eq)]
pub struct TickReport {
    pub started: Vec<i64>,
    pub completed: Vec<i64>,
    /// Id and the reason, as the user should read it.
    pub failed: Vec<(i64, String)>,
    /// Running, but nothing has arrived for a while.
    pub stalled: Vec<i64>,
}

impl TickReport {
    pub fn is_empty(&self) -> (r: bool)
        ensures
            r == (self.started@.len() == 0 && self.completed@.len() == 0 && self.failed@.len()
                == 0 && self.stalled@.len() == 0),
    {
        self.started.len() == 0 && self.completed.len() == 0 && self.failed.len() == 0
            && self.stalled.len() == 0
    }
}

/// The recordings folder, what it holds, and the limits on it.
#[derive(Debug, Clone, PartialEq, Eq)]
pub struct Storage {
    pub folder: String,
    pub used_bytes: i64,
    /// Zero means no limit.
    pub quota_bytes: i64,
    /// Recordings that would be deleted to get back under the quota.
    pub prunable: Vec<i64>,
    pub max_concurrent: usize,
}

/// How many recordings may run at once, at least one.
pub fn concurrency_limit(max: usize) -> (r: usize)
    ensures
        r == if max > 1 { max } else { 1 },
{
    if max > 1 {
        max
    } else {
        1
    }
}

/// A running recording ends when its window has closed or its stream has stopped.
pub fn is_ending(stop_at: i64, now: i64, stream_finished: bool) -> (r: bool)
    ensures
        r == (stop_at <= now || stream_finished),
{
    stop_at <= now || stream_finished
}

/// A scheduled recording whose window closed while nothing was running is missed.
pub fn is_missed(stop: i64, now: i64) -> (r: bool)
    ensures
        r == (stop <= now),
{
    stop <= now
}

/// What to do with a recording that is due.
#[derive(Debug, Clone, PartialEq, Eq)]
pub enum Admission {
    /// It is already recording: leave it be.
    AlreadyRunning,
    /// Start it.
    Start,
    /// Skip it, for this reason: its airtime is now, so it is not queued.
    Skip(String),
}

/// The reason a due recording is skipped when every connection is in use.
pub open spec fn too_many_reason() -> Seq<char> {
    "too many recordings at once for this subscription"@
}

/// What to do with a due recording: one already running is left alone; with every connection in
/// use it is skipped (the due list comes in priority order, so the ones that matter
/// start first); otherwise it starts.
pub fn admission_for(already_running: bool, active: usize, max_concurrent: usize) -> (r: Admission)
    ensures
        already_running ==> r == Admission::AlreadyRunning,
        !already_running && active >= max_concurrent ==> (r matches Admission::Skip(m) && m@
            == too_many_reason()),
        !already_running && active < max_concurrent ==> r == Admission::Start,
{
    if already_running {
        Admission::AlreadyRunning
    } else if active >= max_concurrent {
        Admission::Skip(owned("too many recordings at once for this subscription"))
    } else {
        Admission::Start
    }
}

/// How a recording that stopped is filed: one that wrote something completes, even cut
/// short, with the cut's reason attached, since the file plays up to the cut; one that
/// wrote nothing fails, with the recorder's reason or "the provider sent nothing".
pub fn settle(usable: bool, error: Option<String>) -> (r: (RecordingState, Option<String>))
    ensures
        usable ==> r.0 == RecordingState::Completed && r.1 == error,
        !usable ==> r.0 == RecordingState::Failed && (match error {
            Some(e) => r.1 == Some(e),
            None => r.1 matches Some(m) && m@ == "the provider sent nothing"@,
        }),
{
    if usable {
        (RecordingState::Completed, error)
    } else {
        match error {
            Some(e) => (RecordingState::Failed, Some(e)),
            None => (RecordingState::Failed, Some(owned("the provider sent nothing"))),
        }
    }
}

/// Why a missed recording failed.
pub fn missed_reason() -> (r: String)
    ensures
        r@ == "Aurora was not running when this was due"@,
{
    owned("Aurora was not running when this was due")
}

} // verus!

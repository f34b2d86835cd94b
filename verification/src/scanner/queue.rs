//! The single queue of scan jobs and the status of the scan in progress.
//!
//! At most one scan runs at any time. A job that is asked for while a scan
//! runs waits in the queue; a job with the roots of one that is waiting
//! already is dropped.

use crate::db::database::string_views;
use crate::models::Duplicate;
use vstd::prelude::*;
use vstd::string::StringExecFns;

verus! {

/// Whether a scan runs.
#[derive(Debug, Clone, Copy, PartialEq, Eq, Structural)]
pub enum ScanState {
    Idle,
    Running,
}

/// What asked for a scan.
#[derive(Debug, Clone, Copy, PartialEq, Eq, Structural)]
pub enum ScanTrigger {
    Manual,
    Watcher,
}

impl ScanTrigger {
    /// Whether the shell is told that a job of this trigger starts.
    pub fn emit_queued(self) -> (r: bool)
        ensures
            r,
    {
        true
    }
}

/// A scan that is asked for.
#[derive(Debug, Clone)]
pub struct ScanJob {
    pub roots: Vec<String>,
    pub trigger: ScanTrigger,
}

/// The status of the scan in progress, or of the last one.
#[derive(Debug, Clone)]
pub struct ScanStatusInternal {
    pub state: ScanState,
    pub scanned: u64,
    pub skipped: u64,
    pub errors: u64,
    pub started_at: Option<i64>,
    pub finished_at: Option<i64>,
    pub roots: usize,
    pub current_path: Option<String>,
    pub last_error: Option<String>,
}

impl Default for ScanStatusInternal {
    fn default() -> (out: Self)
        ensures
            out.state == ScanState::Idle,
            out.scanned == 0,
            out.skipped == 0,
            out.errors == 0,
            out.started_at is None,
            out.finished_at is None,
            out.roots == 0,
            out.current_path is None,
            out.last_error is None,
    {
        ScanStatusInternal {
            state: ScanState::Idle,
            scanned: 0,
            skipped: 0,
            errors: 0,
            started_at: None,
            finished_at: None,
            roots: 0,
            current_path: None,
            last_error: None,
        }
    }
}

/// The status as the shell sees it.
#[derive(Debug, Clone)]
pub struct ScanStatusPayload {
    /// `idle` or `running`.
    pub state: String,
    pub scanned: u64,
    pub skipped: u64,
    pub errors: u64,
    pub started_at: Option<i64>,
    pub finished_at: Option<i64>,
    pub roots: usize,
    pub current_path: Option<String>,
    pub last_error: Option<String>,
}

/// What the shell is told when a job starts.
#[derive(Debug, Clone, Copy)]
pub struct ScanQueuedPayload {
    pub roots: usize,
}

/// The queue of jobs and the status of the scan.
#[derive(Debug, Clone)]
pub struct ScanRuntime {
    pub queue: Vec<ScanJob>,
    pub status: ScanStatusInternal,
}

/// The roots of each waiting job.
pub open spec fn queued_roots(queue: Seq<ScanJob>) -> Seq<Seq<Seq<char>>> {
    Seq::new(queue.len(), |i: int| string_views(queue[i].roots@))
}

/// Some waiting job has exactly these roots, in this order.
pub open spec fn is_queued(queue: Seq<ScanJob>, roots: Seq<Seq<char>>) -> bool {
    queued_roots(queue).contains(roots)
}

fn same_roots(a: &Vec<String>, b: &Vec<String>) -> (r: bool)
    ensures
        r == (string_views(a@) == string_views(b@)),
{
    if a.len() != b.len() {
        assert(string_views(a@).len() != string_views(b@).len());
        return false;
    }
    let mut i: usize = 0;
    while i < a.len()
        invariant
            i <= a.len(),
            a.len() == b.len(),
            forall|j: int| 0 <= j < i ==> (#[trigger] a@[j])@ == b@[j]@,
        decreases a.len() - i,
    {
        if a[i] != b[i] {
            assert(string_views(a@)[i as int] != string_views(b@)[i as int]);
            return false;
        }
        i = i + 1;
    }
    assert(string_views(a@) =~= string_views(b@));
    true
}

/// What the queue decides on: the roots of the jobs that wait, and
/// whether a scan runs.
pub struct QueueShape {
    pub waiting: Seq<Seq<Seq<char>>>,
    pub running: bool,
}

/// What can happen to the queue: a scan of some roots is asked for, the
/// queue is given its turn to start a job, or the scan that runs is done.
pub enum QueueEvent {
    Asked(Seq<Seq<char>>),
    Turn,
    Done,
}

/// Whether the event starts a scan: the queue has its turn, no scan runs,
/// and a job waits.
pub open spec fn starts(q: QueueShape, e: QueueEvent) -> bool {
    e is Turn && !q.running && q.waiting.len() > 0
}

/// Whether the event ends a scan.
pub open spec fn ends(q: QueueShape, e: QueueEvent) -> bool {
    e is Done && q.running
}

/// The queue after the event.
pub open spec fn after(q: QueueShape, e: QueueEvent) -> QueueShape {
    match e {
        QueueEvent::Asked(roots) => if roots.len() == 0 || q.waiting.contains(roots) {
            q
        } else {
            QueueShape { waiting: q.waiting.push(roots), running: q.running }
        },
        QueueEvent::Turn => if starts(q, e) {
            QueueShape { waiting: q.waiting.drop_first(), running: true }
        } else {
            q
        },
        QueueEvent::Done => QueueShape { waiting: q.waiting, running: false },
    }
}

/// The queue after the events, one after the other.
pub open spec fn after_all(q: QueueShape, events: Seq<QueueEvent>) -> QueueShape
    decreases events.len(),
{
    if events.len() == 0 {
        q
    } else {
        after(after_all(q, events.drop_last()), events.last())
    }
}

/// How many scans run after the events: those that ran before or were
/// started by an event, less those that an event ended.
pub open spec fn in_flight(q: QueueShape, events: Seq<QueueEvent>) -> int
    decreases events.len(),
{
    if events.len() == 0 {
        if q.running {
            1
        } else {
            0
        }
    } else {
        let before = after_all(q, events.drop_last());
        in_flight(q, events.drop_last()) + (if starts(before, events.last()) {
            1int
        } else {
            0int
        }) - (if ends(before, events.last()) {
            1int
        } else {
            0int
        })
    }
}

/// Single flight: whatever is asked for and whenever the queue has its
/// turn, at most one scan runs at any time, and the status says that a
/// scan runs exactly while one does. A scan that is asked for while one
/// runs waits in the queue.
pub proof fn law_single_flight(q: QueueShape, events: Seq<QueueEvent>)
    ensures
        0 <= in_flight(q, events) <= 1,
        after_all(q, events).running == (in_flight(q, events) == 1),
        forall|roots: Seq<Seq<char>>|
            after_all(q, events).running ==> !starts(
                #[trigger] after(after_all(q, events), QueueEvent::Asked(roots)),
                QueueEvent::Turn,
            ),
    decreases events.len(),
{
    if events.len() > 0 {
        law_single_flight(q, events.drop_last());
    }
}

impl ScanRuntime {
    /// What the queue decides on.
    pub open spec fn shape(&self) -> QueueShape {
        QueueShape {
            waiting: queued_roots(self.queue@),
            running: self.status.state == ScanState::Running,
        }
    }

    /// A runtime with no job waiting and no scan running.
    pub fn new() -> (out: ScanRuntime)
        ensures
            out.queue@.len() == 0,
            out.status.state == ScanState::Idle,
            out.status.scanned == 0,
            out.status.started_at is None,
    {
        ScanRuntime { queue: Vec::new(), status: ScanStatusInternal::default() }
    }

    /// Puts a job for `roots` at the end of the queue, unless a job with
    /// these roots waits there already. A job without roots is refused.
    /// The status of the scan is not touched: a job that is asked for
    /// while a scan runs waits.
    ///
    /// Returns whether the job was put in the queue.
    pub fn enqueue_scan_job(&mut self, roots: Vec<String>, trigger: ScanTrigger) -> (out: Result<
        bool,
        String,
    >)
        ensures
            final(self).status == old(self).status,
            final(self).shape() == after(old(self).shape(), QueueEvent::Asked(string_views(roots@))),
            match out {
                Err(message) => roots@.len() == 0 && message@ == "no scan roots provided"@
                    && final(self).queue == old(self).queue,
                Ok(added) => {
                    &&& roots@.len() > 0
                    &&& added == !is_queued(old(self).queue@, string_views(roots@))
                    &&& added ==> final(self).queue@ == old(self).queue@.push(
                        ScanJob { roots, trigger },
                    )
                    &&& !added ==> final(self).queue == old(self).queue
                },
            },
    {
        if roots.len() == 0 {
            return Err(String::from_str("no scan roots provided"));
        }
        let mut i: usize = 0;
        while i < self.queue.len()
            invariant
                i <= self.queue.len(),
                roots@.len() > 0,
                *self == *old(self),
                forall|j: int|
                    0 <= j < i ==> (#[trigger] queued_roots(self.queue@)[j]) != string_views(roots@),
            decreases self.queue.len() - i,
        {
            if same_roots(&self.queue[i].roots, &roots) {
                assert(queued_roots(self.queue@)[i as int] == string_views(roots@));
                return Ok(false);
            }
            i = i + 1;
        }
        self.queue.push(ScanJob { roots, trigger });
        proof {
            assert(queued_roots(self.queue@) =~= queued_roots(old(self).queue@).push(
                string_views(roots@),
            ));
            assert forall|j: int| 0 <= j < old(self).queue@.len() implies queued_roots(
                old(self).queue@,
            )[j] != string_views(roots@) by {}
        }
        Ok(true)
    }

    /// Starts the job that waits longest, if no scan runs and a job
    /// waits.
    ///
    /// While a scan runs nothing is started and nothing changes. When a
    /// job is started, the status says that a scan runs, started at `now`,
    /// over the roots of the job, with all counts at zero.
    pub fn process_queue(&mut self, now: i64) -> (out: Option<ScanJob>)
        ensures
            final(self).shape() == after(old(self).shape(), QueueEvent::Turn),
            out is Some <==> starts(old(self).shape(), QueueEvent::Turn),
            old(self).status.state == ScanState::Running ==> out is None && *final(self) == *old(
                self,
            ),
            old(self).status.state == ScanState::Idle && old(self).queue@.len() == 0 ==> out
                is None && *final(self) == *old(self),
            old(self).status.state == ScanState::Idle && old(self).queue@.len() > 0 ==> {
                &&& out == Some(old(self).queue@[0])
                &&& final(self).queue@ == old(self).queue@.drop_first()
                &&& final(self).status.state == ScanState::Running
                &&& final(self).status.scanned == 0
                &&& final(self).status.skipped == 0
                &&& final(self).status.errors == 0
                &&& final(self).status.started_at == Some(now)
                &&& final(self).status.finished_at is None
                &&& final(self).status.roots == old(self).queue@[0].roots@.len()
                &&& final(self).status.current_path is None
                &&& final(self).status.last_error is None
            },
    {
        if self.status.state == ScanState::Running {
            return None;
        }
        if self.queue.len() == 0 {
            return None;
        }
        let job = self.queue.remove(0);
        assert(self.queue@ =~= old(self).queue@.drop_first());
        assert(queued_roots(self.queue@) =~= queued_roots(old(self).queue@).drop_first());
        self.status.state = ScanState::Running;
        self.status.scanned = 0;
        self.status.skipped = 0;
        self.status.errors = 0;
        self.status.started_at = Some(now);
        self.status.finished_at = None;
        self.status.roots = job.roots.len();
        self.status.current_path = None;
        self.status.last_error = None;
        Some(job)
    }

    /// Notes how far the scan is.
    pub fn update_progress(&mut self, scanned: u64, skipped: u64, errors: u64, current: Option<
        String,
    >)
        ensures
            final(self).queue == old(self).queue,
            final(self).shape() == old(self).shape(),
            final(self).status == (ScanStatusInternal {
                scanned,
                skipped,
                errors,
                current_path: current,
                last_error: None,
                ..old(self).status
            }),
    {
        self.status.scanned = scanned;
        self.status.skipped = skipped;
        self.status.errors = errors;
        self.status.current_path = current;
        self.status.last_error = None;
    }

    /// Notes that the scan is done, at `now`: no scan runs any more.
    pub fn finalize_status(&mut self, scanned: u64, skipped: u64, errors: u64, now: i64)
        ensures
            final(self).queue == old(self).queue,
            final(self).shape() == after(old(self).shape(), QueueEvent::Done),
            final(self).status == (ScanStatusInternal {
                state: ScanState::Idle,
                scanned,
                skipped,
                errors,
                finished_at: Some(now),
                current_path: None,
                last_error: None,
                ..old(self).status
            }),
    {
        self.status.scanned = scanned;
        self.status.skipped = skipped;
        self.status.errors = errors;
        self.status.finished_at = Some(now);
        self.status.state = ScanState::Idle;
        self.status.current_path = None;
        self.status.last_error = None;
    }

    /// Notes that the scan failed, at `now`: no scan runs any more, one
    /// more error is counted, and the message is kept.
    pub fn finalize_status_error(&mut self, message: String, now: i64)
        ensures
            final(self).queue == old(self).queue,
            final(self).shape() == after(old(self).shape(), QueueEvent::Done),
            final(self).status == (ScanStatusInternal {
                state: ScanState::Idle,
                errors: if old(self).status.errors < u64::MAX {
                    (old(self).status.errors + 1) as u64
                } else {
                    u64::MAX
                },
                finished_at: Some(now),
                current_path: None,
                last_error: Some(message),
                ..old(self).status
            }),
    {
        self.status.errors = self.status.errors.saturating_add(1);
        self.status.finished_at = Some(now);
        self.status.state = ScanState::Idle;
        self.status.current_path = None;
        self.status.last_error = Some(message);
    }

    /// The status as the shell sees it.
    pub fn current_status(&self) -> (out: ScanStatusPayload)
        ensures
            out.state@ == (if self.status.state == ScanState::Idle {
                "idle"@
            } else {
                "running"@
            }),
            out.scanned == self.status.scanned,
            out.skipped == self.status.skipped,
            out.errors == self.status.errors,
            out.started_at == self.status.started_at,
            out.finished_at == self.status.finished_at,
            out.roots == self.status.roots,
            out.current_path == self.status.current_path,
            out.last_error == self.status.last_error,
    {
        ScanStatusPayload {
            state: match self.status.state {
                ScanState::Idle => String::from_str("idle"),
                ScanState::Running => String::from_str("running"),
            },
            scanned: self.status.scanned,
            skipped: self.status.skipped,
            errors: self.status.errors,
            started_at: self.status.started_at,
            finished_at: self.status.finished_at,
            roots: self.status.roots,
            current_path: self.status.current_path.duplicate(),
            last_error: self.status.last_error.duplicate(),
        }
    }
}

} // verus!

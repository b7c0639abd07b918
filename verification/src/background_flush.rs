//! Configuration of the background flusher and the decisions its worker and handle take.
//!
//! The thread, the lock, the condition variable and the atomics live with the caller, which runs
//! the worker loop: each function here takes the shared control state and what the caller just
//! observed, and returns what to do next.
use std::time::Duration;
use vstd::prelude::*;

verus! {

/// The interval that `Duration::from_secs` builds.
pub uninterp spec fn duration_from_secs(secs: u64) -> Duration;

/// The interval that `Duration::from_millis` builds.
pub uninterp spec fn duration_from_millis(millis: u64) -> Duration;

/// `Duration::from_secs`.
#[verifier::external_body]
fn seconds(secs: u64) -> (r: Duration)
    ensures
        r == duration_from_secs(secs),
{
    Duration::from_secs(secs)
}

/// `Duration::from_millis`.
#[verifier::external_body]
fn milliseconds(millis: u64) -> (r: Duration)
    ensures
        r == duration_from_millis(millis),
{
    Duration::from_millis(millis)
}

/// When the background flusher wakes and how much it drains per flush.
#[derive(Clone, Copy, Debug)]
pub struct BackgroundFlushConfig {
    /// Backlog size that wakes the worker.
    pub trigger_dirty: usize,
    /// Batch limit handed to each flush.
    pub flush_limit: usize,
    /// How long the idle worker sleeps before it re-reads the backlog.
    pub check_interval: Duration,
}

pub open spec fn at_least_one(n: usize) -> usize {
    if n > 1 {
        n
    } else {
        1
    }
}

fn max_one(n: usize) -> (r: usize)
    ensures
        r == at_least_one(n),
{
    if n > 1 {
        n
    } else {
        1
    }
}

impl BackgroundFlushConfig {
    pub fn new(trigger_dirty: usize, flush_limit: usize, check_interval: Duration) -> (r: Self)
        ensures
            r.trigger_dirty == trigger_dirty,
            r.flush_limit == flush_limit,
            r.check_interval == check_interval,
    {
        BackgroundFlushConfig { trigger_dirty, flush_limit, check_interval }
    }

    /// Wakes once a batch of `batch_size` writes is pending, drains 512 per flush, and re-checks
    /// every 10 s for batches of 256 or more, every 100 ms otherwise.
    pub fn for_batch_size(batch_size: usize) -> (r: Self)
        ensures
            r.trigger_dirty == at_least_one(batch_size),
            r.flush_limit == 512,
            r.check_interval == (if at_least_one(batch_size) >= 256 {
                duration_from_secs(10)
            } else {
                duration_from_millis(100)
            }),
    {
        let trigger_dirty = max_one(batch_size);
        let flush_limit: usize = 512;
        let check_interval = if trigger_dirty >= 256 {
            seconds(10)
        } else {
            milliseconds(100)
        };
        Self::new(trigger_dirty, flush_limit, check_interval)
    }
}

impl Default for BackgroundFlushConfig {
    fn default() -> (r: Self)
        ensures
            r.trigger_dirty == 1024,
            r.flush_limit == 512,
            r.check_interval == duration_from_millis(100),
    {
        BackgroundFlushConfig {
            trigger_dirty: 1024,
            flush_limit: 512,
            check_interval: milliseconds(100),
        }
    }
}

/// The batch limit a flush uses: at least one.
pub fn drain_limit(flush_limit: usize) -> (r: usize)
    ensures
        r == at_least_one(flush_limit),
{
    max_one(flush_limit)
}

/// The error every request receives once the service is shutting down.
pub fn shutdown_error() -> (r: String)
    ensures
        r@ == "Background flush service is shutting down"@,
{
    "Background flush service is shutting down".to_owned()
}

pub open spec fn shutdown_message() -> Seq<char> {
    "Background flush service is shutting down"@
}

/// A copy of a flush result.
fn copy_result(result: &Result<(), String>) -> (r: Result<(), String>)
    ensures
        r == *result,
{
    match result {
        Ok(unit) => Ok(*unit),
        Err(e) => Err(e.clone()),
    }
}

/// The state shared by the worker and its handle, kept under one lock.
#[derive(Debug)]
pub struct WorkerControl {
    pub wake_pending: bool,
    pub force_flush: bool,
    pub shutdown: bool,
    pub pending_sync: u64,
    pub completed_sync: u64,
    pub last_sync_result: Option<Result<(), String>>,
}

/// What the worker does after it wakes.
#[derive(Clone, Copy, Debug, PartialEq, Eq, Structural)]
pub enum WorkerStep {
    /// The service shuts down: run one last flush and stop.
    FinalFlush,
    /// Run one cycle: flush when `needs_flush`, then complete syncs up to `target_sync`.
    Cycle { target_sync: u64, needs_flush: bool },
}

/// What the worker does after a cycle.
#[derive(Debug)]
pub enum CycleOutcome {
    /// The flush failed: the service shuts down with this result; wake every waiter.
    Stop(Result<(), String>),
    /// Keep going; wake the waiters when `notify`.
    Continue { notify: bool },
}

/// How a synchronous flush request proceeds.
#[derive(Debug)]
pub enum SyncStart {
    /// The service is down: answer at once.
    Immediate(Result<(), String>),
    /// Wait until the worker completed sync number `target`.
    Wait { target: u64 },
}

/// What `note_writes` does after counting new writes.
#[derive(Clone, Copy, Debug, PartialEq, Eq, Structural)]
pub enum NoteWritesAction {
    /// Nothing to do.
    Done,
    /// The service is down.
    Refuse,
    /// The backlog reached the trigger: try to wake the worker.
    Wake,
}

impl WorkerControl {
    /// No request outstanding.
    pub fn new() -> (r: Self)
        ensures
            !r.wake_pending && !r.force_flush && !r.shutdown,
            r.pending_sync == 0 && r.completed_sync == 0,
            r.last_sync_result is None,
    {
        WorkerControl {
            wake_pending: false,
            force_flush: false,
            shutdown: false,
            pending_sync: 0,
            completed_sync: 0,
            last_sync_result: None,
        }
    }

    /// Whether the idle worker should keep sleeping.
    pub fn should_sleep(&self, backlog: usize, trigger_dirty: usize) -> (r: bool)
        ensures
            r == (!self.shutdown && !self.force_flush && !self.wake_pending && self.pending_sync
                == self.completed_sync && backlog < at_least_one(trigger_dirty)),
    {
        let trigger = max_one(trigger_dirty);
        !self.shutdown && !self.force_flush && !self.wake_pending && self.pending_sync
            == self.completed_sync && backlog < trigger
    }

    /// Starts a cycle once the worker is awake: consumes the wake and force requests and decides
    /// whether to flush.
    pub fn begin_cycle(&mut self, backlog: usize, trigger_dirty: usize) -> (r: WorkerStep)
        ensures
            old(self).shutdown ==> r == WorkerStep::FinalFlush && *final(self) == *old(self),
            !old(self).shutdown ==> {
                &&& r == WorkerStep::Cycle {
                    target_sync: old(self).pending_sync,
                    needs_flush: old(self).force_flush || old(self).wake_pending || old(
                        self,
                    ).pending_sync > old(self).completed_sync || backlog >= at_least_one(
                        trigger_dirty,
                    ),
                }
                &&& *final(self) == (WorkerControl {
                    force_flush: false,
                    wake_pending: false,
                    ..*old(self)
                })
            },
    {
        if self.shutdown {
            return WorkerStep::FinalFlush;
        }
        let trigger = max_one(trigger_dirty);
        let target_sync = self.pending_sync;
        let needs_flush = self.force_flush || self.wake_pending || target_sync > self.completed_sync
            || backlog >= trigger;
        self.force_flush = false;
        self.wake_pending = false;
        WorkerStep::Cycle { target_sync, needs_flush }
    }

    /// Records the result of a cycle that aimed at `target_sync`.
    pub fn finish_cycle(&mut self, target_sync: u64, result: Result<(), String>) -> (r:
        CycleOutcome)
        ensures
            result is Err ==> {
                &&& r matches CycleOutcome::Stop(res) && res == result
                &&& *final(self) == (WorkerControl {
                    shutdown: true,
                    completed_sync: old(self).pending_sync,
                    last_sync_result: Some(result),
                    ..*old(self)
                })
            },
            result is Ok && target_sync > old(self).completed_sync ==> {
                &&& r matches CycleOutcome::Continue { notify } && notify
                &&& *final(self) == (WorkerControl {
                    completed_sync: target_sync,
                    last_sync_result: Some(result),
                    ..*old(self)
                })
            },
            result is Ok && target_sync <= old(self).completed_sync ==> {
                &&& r matches CycleOutcome::Continue { notify } && !notify
                &&& *final(self) == *old(self)
            },
    {
        if result.is_err() {
            self.shutdown = true;
            self.completed_sync = self.pending_sync;
            self.last_sync_result = Some(copy_result(&result));
            return CycleOutcome::Stop(result);
        }
        if target_sync > self.completed_sync {
            self.completed_sync = target_sync;
            self.last_sync_result = Some(result);
            return CycleOutcome::Continue { notify: true };
        }
        CycleOutcome::Continue { notify: false }
    }

    /// Asks the worker to wake; refused once the service shuts down.
    pub fn request_wake(&mut self) -> (r: bool)
        ensures
            r == !old(self).shutdown,
            r ==> *final(self) == (WorkerControl { wake_pending: true, ..*old(self) }),
            !r ==> *final(self) == *old(self),
    {
        if self.shutdown {
            return false;
        }
        self.wake_pending = true;
        true
    }

    /// Asks the worker to flush even below the trigger; refused once the service shuts down.
    pub fn request_force_flush(&mut self) -> (r: bool)
        ensures
            r == !old(self).shutdown,
            r ==> *final(self) == (WorkerControl { force_flush: true, ..*old(self) }),
            !r ==> *final(self) == *old(self),
    {
        if self.shutdown {
            return false;
        }
        self.force_flush = true;
        true
    }

    /// The answer a finished or refused synchronous flush returns.
    pub fn sync_result(&self) -> (r: Result<(), String>)
        ensures
            match self.last_sync_result {
                Some(res) => r == res,
                None => r matches Err(e) && e@ == shutdown_message(),
            },
    {
        match &self.last_sync_result {
            Some(result) => copy_result(result),
            None => Err(shutdown_error()),
        }
    }

    /// Starts a synchronous flush: registers a new sync number and forces a flush, unless the
    /// service is down.
    pub fn begin_sync(&mut self, running: bool) -> (r: SyncStart)
        ensures
            (old(self).shutdown || !running) ==> {
                &&& *final(self) == *old(self)
                &&& r matches SyncStart::Immediate(res)
                &&& match old(self).last_sync_result {
                    Some(last) => res == last,
                    None => res matches Err(e) && e@ == shutdown_message(),
                }
            },
            !(old(self).shutdown || !running) ==> {
                let target = if old(self).pending_sync == u64::MAX {
                    0
                } else {
                    (old(self).pending_sync + 1) as u64
                };
                &&& r matches SyncStart::Wait { target: t } && t == target
                &&& *final(self) == (WorkerControl {
                    pending_sync: target,
                    force_flush: true,
                    ..*old(self)
                })
            },
    {
        if self.shutdown || !running {
            return SyncStart::Immediate(self.sync_result());
        }
        self.pending_sync = self.pending_sync.wrapping_add(1);
        let target = self.pending_sync;
        self.force_flush = true;
        SyncStart::Wait { target }
    }

    /// Whether a synchronous flush waiting for `target` may stop waiting.
    pub fn sync_finished(&self, target: u64) -> (r: bool)
        ensures
            r == (self.completed_sync >= target || self.shutdown),
    {
        self.completed_sync >= target || self.shutdown
    }

    /// Marks the service as shutting down: every pending sync completes with the shutdown error.
    pub fn mark_shutdown(&mut self)
        ensures
            final(self).shutdown,
            final(self).completed_sync == old(self).pending_sync,
            final(self).pending_sync == old(self).pending_sync,
            final(self).wake_pending == old(self).wake_pending,
            final(self).force_flush == old(self).force_flush,
            final(self).last_sync_result matches Some(Err(e)) && e@ == shutdown_message(),
    {
        self.shutdown = true;
        self.completed_sync = self.pending_sync;
        self.last_sync_result = Some(Err(shutdown_error()));
    }
}

/// What `note_writes` does after `writes_added` new writes, given whether the service runs, its
/// trigger and the backlog hint before the writes; also returns the new backlog hint.
pub fn note_writes_action(writes_added: usize, running: bool, trigger_dirty: usize, backlog_before: usize) -> (r: (NoteWritesAction, usize))
    ensures
        writes_added == 0 ==> r == (NoteWritesAction::Done, backlog_before),
        writes_added > 0 && !running ==> r == (NoteWritesAction::Refuse, backlog_before),
        writes_added > 0 && running ==> {
            let dirty = if backlog_before + writes_added > usize::MAX {
                usize::MAX as int
            } else {
                backlog_before + writes_added
            };
            &&& r.1 == dirty
            &&& r.0 == (if dirty < at_least_one(trigger_dirty) {
                NoteWritesAction::Done
            } else {
                NoteWritesAction::Wake
            })
        },
{
    if writes_added == 0 {
        return (NoteWritesAction::Done, backlog_before);
    }
    if !running {
        return (NoteWritesAction::Refuse, backlog_before);
    }
    let trigger = max_one(trigger_dirty);
    let dirty = backlog_before.saturating_add(writes_added);
    if dirty < trigger {
        (NoteWritesAction::Done, dirty)
    } else {
        (NoteWritesAction::Wake, dirty)
    }
}

/// Whether lowering the trigger from `old_trigger` to `trigger_dirty` (at least one) should force
/// a flush of a backlog of `current_dirty`.
pub fn reconfigure_should_flush(trigger_dirty: usize, old_trigger: usize, current_dirty: usize) -> (r: bool)
    ensures
        r == (at_least_one(trigger_dirty) < old_trigger && current_dirty >= at_least_one(trigger_dirty)),
{
    let new_trigger = max_one(trigger_dirty);
    new_trigger < old_trigger && current_dirty >= new_trigger
}

} // verus!

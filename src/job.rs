//! The blocking half of making a snapshot, as a state machine: take the
//! store's snapshot lock, flush the store to the new snapshot, remove the
//! evicted one, give the lock back and report.
//!
//! The caller performs each action and hands back what came of it.

use vstd::prelude::*;

verus! {

/// Where a job stands.
#[derive(Debug, Clone, Copy, PartialEq, Eq, Structural)]
pub enum JobPhase {
    /// Not started.
    Idle,
    /// Waiting for the snapshot lock.
    Locking,
    /// Holding the lock, waiting for the flush.
    Flushing,
    /// Holding the lock, waiting for the evicted snapshot's removal.
    Removing,
    /// Waiting for the lock to be given back; the outcome is known.
    Releasing(bool),
    /// Finished with this outcome.
    Done(bool),
}

/// What came of the last action.
#[derive(Debug, Clone, Copy, PartialEq, Eq, Structural)]
pub enum JobEvent {
    /// The job is to begin.
    Start,
    /// The snapshot lock is held.
    LockAcquired,
    /// The flush succeeded (`true`) or failed.
    FlushDone(bool),
    /// The evicted snapshot's directory was removed (`true`) or not.
    RemoveDone(bool),
    /// The snapshot lock was given back.
    LockReleased,
}

/// What the caller is to do next.
#[derive(Debug, Clone, PartialEq, Eq)]
pub enum JobAction {
    /// Take the store's snapshot lock.
    AcquireLock,
    /// Flush the store to the snapshot directory of this name.
    Flush(String),
    /// Remove the snapshot directory of this name, with all it holds.
    RemoveSnapshot(String),
    /// Give the snapshot lock back.
    ReleaseLock,
    /// Report the outcome: `true` when every step succeeded.
    Finish(bool),
}

/// One step: from `phase`, the event `ev` leads to a new phase and an action;
/// `None` where the event is not the one the phase waits for.
pub open spec fn job_step(phase: JobPhase, snapname: String, oldsnap: Option<String>, ev: JobEvent) -> Option<
    (JobPhase, JobAction),
> {
    match (phase, ev) {
        (JobPhase::Idle, JobEvent::Start) => Some((JobPhase::Locking, JobAction::AcquireLock)),
        (JobPhase::Locking, JobEvent::LockAcquired) => Some(
            (JobPhase::Flushing, JobAction::Flush(snapname)),
        ),
        (JobPhase::Flushing, JobEvent::FlushDone(ok)) => if ok && oldsnap is Some {
            Some((JobPhase::Removing, JobAction::RemoveSnapshot(oldsnap->0)))
        } else {
            Some((JobPhase::Releasing(ok), JobAction::ReleaseLock))
        },
        (JobPhase::Removing, JobEvent::RemoveDone(ok)) => Some(
            (JobPhase::Releasing(ok), JobAction::ReleaseLock),
        ),
        (JobPhase::Releasing(ok), JobEvent::LockReleased) => Some(
            (JobPhase::Done(ok), JobAction::Finish(ok)),
        ),
        _ => None,
    }
}

/// The phase reached and the actions asked for when the events `events` are
/// handed, in order, to a job in `phase`.
pub open spec fn run_job(
    phase: JobPhase,
    snapname: String,
    oldsnap: Option<String>,
    events: Seq<JobEvent>,
) -> (JobPhase, Seq<JobAction>)
    decreases events.len(),
{
    if events.len() == 0 {
        (phase, seq![])
    } else {
        let (p, acts) = run_job(phase, snapname, oldsnap, events.drop_last());
        match job_step(p, snapname, oldsnap, events.last()) {
            Some((q, a)) => (q, acts.push(a)),
            None => (p, acts),
        }
    }
}

/// How many of `acts` take the lock.
pub open spec fn acquires(acts: Seq<JobAction>) -> nat
    decreases acts.len(),
{
    if acts.len() == 0 {
        0
    } else {
        acquires(acts.drop_last()) + if acts.last() is AcquireLock {
            1nat
        } else {
            0
        }
    }
}

/// How many of `acts` give the lock back.
pub open spec fn releases(acts: Seq<JobAction>) -> nat
    decreases acts.len(),
{
    if acts.len() == 0 {
        0
    } else {
        releases(acts.drop_last()) + if acts.last() is ReleaseLock {
            1nat
        } else {
            0
        }
    }
}

/// The lock counts that the phase `p` stands for: none before the job starts,
/// one taking while it runs, and one taking and one giving back once the lock
/// is being given back.
pub open spec fn lock_counts_fit(p: JobPhase, acts: Seq<JobAction>) -> bool {
    match p {
        JobPhase::Idle => acquires(acts) == 0 && releases(acts) == 0,
        JobPhase::Releasing(_) | JobPhase::Done(_) => acquires(acts) == 1 && releases(acts) == 1,
        _ => acquires(acts) == 1 && releases(acts) == 0,
    }
}

proof fn lemma_lock_counts(snapname: String, oldsnap: Option<String>, events: Seq<JobEvent>)
    ensures
        lock_counts_fit(
            run_job(JobPhase::Idle, snapname, oldsnap, events).0,
            run_job(JobPhase::Idle, snapname, oldsnap, events).1,
        ),
    decreases events.len(),
{
    if events.len() > 0 {
        lemma_lock_counts(snapname, oldsnap, events.drop_last());
        let (p, acts) = run_job(JobPhase::Idle, snapname, oldsnap, events.drop_last());
        match job_step(p, snapname, oldsnap, events.last()) {
            Some((q, a)) => {
                assert(acts.push(a).drop_last() =~= acts);
                assert(acquires(acts.push(a)) == acquires(acts) + if a is AcquireLock {
                    1nat
                } else {
                    0
                });
                assert(releases(acts.push(a)) == releases(acts) + if a is ReleaseLock {
                    1nat
                } else {
                    0
                });
            },
            None => {},
        }
    }
}

/// Lock discipline: whatever events a job is handed, it asks for the snapshot
/// lock at most once and gives it back at most once, never before taking it;
/// a job that finished, on success or failure, took it exactly once and gave it
/// back exactly once.
pub proof fn lemma_lock_discipline(snapname: String, oldsnap: Option<String>, events: Seq<JobEvent>)
    ensures
        ({
            let (p, acts) = run_job(JobPhase::Idle, snapname, oldsnap, events);
            &&& releases(acts) <= acquires(acts) <= 1
            &&& p is Done ==> acquires(acts) == 1 && releases(acts) == 1
        }),
{
    lemma_lock_counts(snapname, oldsnap, events);
}

/// A step accepted by the job, then the events `rest`: the first action, then
/// those that `rest` brings from the new phase.
proof fn lemma_run_after_step(
    phase: JobPhase,
    snapname: String,
    oldsnap: Option<String>,
    ev: JobEvent,
    rest: Seq<JobEvent>,
)
    requires
        job_step(phase, snapname, oldsnap, ev) is Some,
    ensures
        ({
            let (q, a) = job_step(phase, snapname, oldsnap, ev)->0;
            let (p, acts) = run_job(q, snapname, oldsnap, rest);
            run_job(phase, snapname, oldsnap, seq![ev] + rest) == (p, seq![a] + acts)
        }),
    decreases rest.len(),
{
    let (q, a) = job_step(phase, snapname, oldsnap, ev)->0;
    if rest.len() == 0 {
        assert((seq![ev] + rest).drop_last() =~= Seq::<JobEvent>::empty());
        assert((seq![ev] + rest).last() == ev);
        assert(run_job(phase, snapname, oldsnap, Seq::<JobEvent>::empty()) == (
            phase,
            Seq::<JobAction>::empty(),
        ));
        assert(seq![a] + Seq::<JobAction>::empty() =~= seq![a]);
        assert(Seq::<JobAction>::empty().push(a) =~= seq![a]);
    } else {
        lemma_run_after_step(phase, snapname, oldsnap, ev, rest.drop_last());
        assert((seq![ev] + rest).drop_last() =~= seq![ev] + rest.drop_last());
        assert((seq![ev] + rest).last() == rest.last());
        let (p0, acts0) = run_job(q, snapname, oldsnap, rest.drop_last());
        match job_step(p0, snapname, oldsnap, rest.last()) {
            Some((p1, a1)) => {
                assert((seq![a] + acts0).push(a1) =~= seq![a] + acts0.push(a1));
            },
            None => {},
        }
    }
}

/// Once a job knows it failed, it only gives the lock back and reports failure.
proof fn lemma_after_failure(snapname: String, oldsnap: Option<String>, events: Seq<JobEvent>)
    ensures
        ({
            let (p, acts) = run_job(JobPhase::Releasing(false), snapname, oldsnap, events);
            &&& p == JobPhase::Releasing(false) || p == JobPhase::Done(false)
            &&& forall|i: int|
                0 <= i < acts.len() ==> #[trigger] acts[i] == JobAction::ReleaseLock || acts[i]
                    == JobAction::Finish(false)
        }),
    decreases events.len(),
{
    if events.len() > 0 {
        lemma_after_failure(snapname, oldsnap, events.drop_last());
    }
}

/// A failed flush: the evicted snapshot is not removed, nothing else is
/// flushed, and a job that finishes reports failure.
pub proof fn lemma_flush_failure(snapname: String, oldsnap: Option<String>, rest: Seq<JobEvent>)
    ensures
        ({
            let (p, acts) = run_job(
                JobPhase::Flushing,
                snapname,
                oldsnap,
                seq![JobEvent::FlushDone(false)] + rest,
            );
            &&& forall|i: int|
                0 <= i < acts.len() ==> !(#[trigger] acts[i] is RemoveSnapshot) && !(acts[i] is Flush)
            &&& p is Done ==> p == JobPhase::Done(false)
        }),
{
    lemma_run_after_step(JobPhase::Flushing, snapname, oldsnap, JobEvent::FlushDone(false), rest);
    lemma_after_failure(snapname, oldsnap, rest);
    let acts = run_job(JobPhase::Releasing(false), snapname, oldsnap, rest).1;
    assert forall|i: int| 0 <= i < acts.len() + 1 implies !(#[trigger] (seq![JobAction::ReleaseLock] + acts)[i] is RemoveSnapshot)
        && !((seq![JobAction::ReleaseLock] + acts)[i] is Flush) by {
        if i > 0 {
            assert((seq![JobAction::ReleaseLock] + acts)[i] == acts[i - 1]);
        }
    }
}

/// A failed removal after a good flush: nothing more is removed or flushed, so
/// the new snapshot stays, and a job that finishes reports failure.
pub proof fn lemma_removal_failure(snapname: String, oldsnap: Option<String>, rest: Seq<JobEvent>)
    ensures
        ({
            let (p, acts) = run_job(
                JobPhase::Removing,
                snapname,
                oldsnap,
                seq![JobEvent::RemoveDone(false)] + rest,
            );
            &&& forall|i: int|
                0 <= i < acts.len() ==> !(#[trigger] acts[i] is RemoveSnapshot) && !(acts[i] is Flush)
            &&& p is Done ==> p == JobPhase::Done(false)
        }),
{
    lemma_run_after_step(JobPhase::Removing, snapname, oldsnap, JobEvent::RemoveDone(false), rest);
    lemma_after_failure(snapname, oldsnap, rest);
    let acts = run_job(JobPhase::Releasing(false), snapname, oldsnap, rest).1;
    assert forall|i: int| 0 <= i < acts.len() + 1 implies !(#[trigger] (seq![JobAction::ReleaseLock] + acts)[i] is RemoveSnapshot)
        && !((seq![JobAction::ReleaseLock] + acts)[i] is Flush) by {
        if i > 0 {
            assert((seq![JobAction::ReleaseLock] + acts)[i] == acts[i - 1]);
        }
    }
}

/// One snapshot job: the snapshot to make and the one to remove, if any.
#[derive(Debug)]
pub struct SnapJob {
    snapname: String,
    oldsnap: Option<String>,
    phase: JobPhase,
}

impl SnapJob {
    pub closed spec fn snapname_spec(&self) -> String {
        self.snapname
    }

    pub closed spec fn oldsnap_spec(&self) -> Option<String> {
        self.oldsnap
    }

    pub closed spec fn phase_spec(&self) -> JobPhase {
        self.phase
    }

    /// A job that makes `snapname` and then removes `oldsnap`, if given.
    pub fn new(snapname: String, oldsnap: Option<String>) -> (r: Self)
        ensures
            r.snapname_spec() == snapname,
            r.oldsnap_spec() == oldsnap,
            r.phase_spec() == JobPhase::Idle,
    {
        SnapJob { snapname, oldsnap, phase: JobPhase::Idle }
    }

    /// Where the job stands.
    pub fn phase(&self) -> (r: JobPhase)
        ensures
            r == self.phase_spec(),
    {
        self.phase
    }

    /// Hands the job what came of its last action (or `Start`); returns the
    /// next action. An event that the job does not wait for changes nothing and
    /// gives `None`.
    pub fn step(&mut self, ev: JobEvent) -> (r: Option<JobAction>)
        ensures
            final(self).snapname_spec() == old(self).snapname_spec(),
            final(self).oldsnap_spec() == old(self).oldsnap_spec(),
            match job_step(old(self).phase_spec(), old(self).snapname_spec(), old(self).oldsnap_spec(), ev) {
                Some((p, a)) => final(self).phase_spec() == p && r == Some(a),
                None => final(self).phase_spec() == old(self).phase_spec() && r is None,
            },
    {
        let (next, action) = match (self.phase, ev) {
            (JobPhase::Idle, JobEvent::Start) => (JobPhase::Locking, JobAction::AcquireLock),
            (JobPhase::Locking, JobEvent::LockAcquired) => (
                JobPhase::Flushing,
                JobAction::Flush(self.snapname.clone()),
            ),
            (JobPhase::Flushing, JobEvent::FlushDone(ok)) => {
                match &self.oldsnap {
                    Some(o) if ok => (JobPhase::Removing, JobAction::RemoveSnapshot(o.clone())),
                    _ => (JobPhase::Releasing(ok), JobAction::ReleaseLock),
                }
            },
            (JobPhase::Removing, JobEvent::RemoveDone(ok)) => (
                JobPhase::Releasing(ok),
                JobAction::ReleaseLock,
            ),
            (JobPhase::Releasing(ok), JobEvent::LockReleased) => (
                JobPhase::Done(ok),
                JobAction::Finish(ok),
            ),
            _ => {
                return None;
            },
        };
        self.phase = next;
        Some(action)
    }
}

} // verus!

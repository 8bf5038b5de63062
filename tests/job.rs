use snapkeep::job::{JobAction, JobEvent, JobPhase, SnapJob};

/// Runs a job to the end, answering each action with the outcome given.
fn drive(job: &mut SnapJob, flush_ok: bool, remove_ok: bool) -> (Vec<JobAction>, bool) {
    let mut actions = Vec::new();
    let mut ev = JobEvent::Start;
    loop {
        let action = job.step(ev).expect("the job waits for this event");
        actions.push(action.clone());
        ev = match action {
            JobAction::AcquireLock => JobEvent::LockAcquired,
            JobAction::Flush(_) => JobEvent::FlushDone(flush_ok),
            JobAction::RemoveSnapshot(_) => JobEvent::RemoveDone(remove_ok),
            JobAction::ReleaseLock => JobEvent::LockReleased,
            JobAction::Finish(ok) => return (actions, ok),
        };
    }
}

fn count(actions: &[JobAction], which: &JobAction) -> usize {
    actions.iter().filter(|a| *a == which).count()
}

#[test]
fn success_with_eviction() {
    let mut job = SnapJob::new("20210601-140000".to_string(), Some("20210601-120000".to_string()));
    let (actions, ok) = drive(&mut job, true, true);
    assert!(ok);
    assert_eq!(
        actions,
        vec![
            JobAction::AcquireLock,
            JobAction::Flush("20210601-140000".to_string()),
            JobAction::RemoveSnapshot("20210601-120000".to_string()),
            JobAction::ReleaseLock,
            JobAction::Finish(true),
        ]
    );
    assert_eq!(job.phase(), JobPhase::Done(true));
}

#[test]
fn success_without_eviction() {
    let mut job = SnapJob::new("a".to_string(), None);
    let (actions, ok) = drive(&mut job, true, true);
    assert!(ok);
    assert_eq!(
        actions,
        vec![
            JobAction::AcquireLock,
            JobAction::Flush("a".to_string()),
            JobAction::ReleaseLock,
            JobAction::Finish(true),
        ]
    );
}

#[test]
fn lock_taken_and_given_back_once_on_every_path() {
    for &(old, flush_ok, remove_ok) in &[
        (true, true, true),
        (true, true, false),
        (true, false, true),
        (false, true, true),
        (false, false, true),
    ] {
        let oldsnap = if old { Some("old".to_string()) } else { None };
        let mut job = SnapJob::new("new".to_string(), oldsnap);
        let (actions, _) = drive(&mut job, flush_ok, remove_ok);
        assert_eq!(count(&actions, &JobAction::AcquireLock), 1);
        assert_eq!(count(&actions, &JobAction::ReleaseLock), 1);
    }
}

#[test]
fn failed_flush_keeps_the_old_snapshot() {
    let mut job = SnapJob::new("new".to_string(), Some("old".to_string()));
    let (actions, ok) = drive(&mut job, false, true);
    assert!(!ok);
    assert!(!actions.iter().any(|a| matches!(a, JobAction::RemoveSnapshot(_))));
    assert_eq!(actions.last(), Some(&JobAction::Finish(false)));
}

#[test]
fn failed_removal_is_reported() {
    let mut job = SnapJob::new("new".to_string(), Some("old".to_string()));
    let (actions, ok) = drive(&mut job, true, false);
    assert!(!ok);
    assert_eq!(
        actions,
        vec![
            JobAction::AcquireLock,
            JobAction::Flush("new".to_string()),
            JobAction::RemoveSnapshot("old".to_string()),
            JobAction::ReleaseLock,
            JobAction::Finish(false),
        ]
    );
}

#[test]
fn unexpected_event_changes_nothing() {
    let mut job = SnapJob::new("new".to_string(), None);
    assert!(job.step(JobEvent::LockReleased).is_none());
    assert_eq!(job.phase(), JobPhase::Idle);
    assert_eq!(job.step(JobEvent::Start), Some(JobAction::AcquireLock));
    assert!(job.step(JobEvent::FlushDone(true)).is_none());
    assert_eq!(job.phase(), JobPhase::Locking);
}

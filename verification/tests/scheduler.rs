use cronserve::registry::Registry;
use cronserve::scheduler::{Action, Event, SchedError, SchedState, Scheduler, DEFAULT_POLL};

#[test]
fn registry_assigns_fresh_ids_and_lists_them() {
    let mut reg = Registry::new();
    let a = reg.register(b"4 * * * * *", 0).unwrap();
    let b = reg.register(b"* * * * * *", 0).unwrap();
    assert_eq!(a, 0);
    assert_eq!(b, 1);
    assert_eq!(reg.list(), vec![0, 1]);
    assert!(reg.remove(a));
    assert!(!reg.remove(a));
    assert_eq!(reg.list(), vec![1]);
}

#[test]
fn registry_rejects_bad_expressions_unchanged() {
    let mut reg = Registry::new();
    assert!(reg.register(b"not a cron line", 0).is_err());
    assert_eq!(reg.list(), vec![]);
}

#[test]
fn due_jobs_reports_once_per_firing() {
    let mut reg = Registry::new();
    let id = reg.register(b"4 * * * * *", 0).unwrap();
    // Registered at 0, first due at 4.
    assert_eq!(reg.jobs[0].next_due, Some(4));
    assert_eq!(reg.due_jobs(3), vec![]);
    assert_eq!(reg.due_jobs(4), vec![id]);
    // An immediate second check at the same instant reports nothing.
    assert_eq!(reg.due_jobs(4), vec![]);
    assert_eq!(reg.jobs[0].next_due, Some(64));
    assert_eq!(reg.jobs[0].last_run, Some(4));
    // A late poll still fires the overdue instant once.
    assert_eq!(reg.due_jobs(130), vec![id]);
    assert_eq!(reg.due_jobs(130), vec![]);
    assert_eq!(reg.jobs[0].next_due, Some(184));
}

#[test]
fn min_next_due_picks_the_soonest_job() {
    let mut reg = Registry::new();
    assert_eq!(reg.min_next_due(), None);
    reg.register(b"30 * * * * *", 0).unwrap();
    reg.register(b"4 * * * * *", 0).unwrap();
    assert_eq!(reg.min_next_due(), Some(4));
}

#[test]
fn scheduler_lifecycle_fires_only_while_running() {
    let mut s = Scheduler::new();
    let id = s.register_job(b"4 * * * * *", 0).unwrap();
    assert_eq!(s.state, SchedState::Idle);
    // Polls before start do nothing.
    assert_eq!(s.step(Event::Poll(10)), Action::Nothing);
    assert_eq!(s.step(Event::Start), Action::Nothing);
    assert_eq!(s.state, SchedState::Running);
    // The job fires at its due instant, and the loop is told to sleep
    // until the advanced next-due instant.
    assert_eq!(s.step(Event::Poll(4)), Action::Fire(vec![id], 64));
    // The same poll instant again fires nothing.
    assert_eq!(s.step(Event::Poll(4)), Action::Fire(vec![], 64));
    assert_eq!(s.step(Event::Poll(64)), Action::Fire(vec![id], 124));
}

#[test]
fn poll_with_no_jobs_sleeps_the_default_interval() {
    let mut s = Scheduler::new();
    assert_eq!(s.step(Event::Start), Action::Nothing);
    assert_eq!(s.step(Event::Poll(100)), Action::Fire(vec![], 100 + DEFAULT_POLL));
}

#[test]
fn shutdown_runs_the_hook_exactly_once_then_stops() {
    // Shutdown scenario: the hook runs exactly once, the loop reports
    // Stopped afterwards, and no firing is observed any more.
    let mut s = Scheduler::new();
    let _ = s.register_job(b"4 * * * * *", 0).unwrap();
    s.step(Event::Start);
    assert_eq!(s.step(Event::Shutdown), Action::RunHook);
    assert_eq!(s.state, SchedState::ShuttingDown);
    // A repeated shutdown request does not run the hook again.
    assert_eq!(s.step(Event::Shutdown), Action::Nothing);
    // No firings while shutting down, even at a due instant.
    assert_eq!(s.step(Event::Poll(4)), Action::Nothing);
    assert_eq!(s.step(Event::HookDone), Action::Nothing);
    assert_eq!(s.state, SchedState::Stopped);
    assert_eq!(s.step(Event::Poll(64)), Action::Nothing);
    assert_eq!(s.step(Event::Shutdown), Action::Nothing);
    assert_eq!(s.state, SchedState::Stopped);
}

#[test]
fn stopped_scheduler_accepts_no_jobs() {
    let mut s = Scheduler::new();
    assert_eq!(s.register_job(b"bogus", 0), Err(SchedError::InvalidExpression));
    s.step(Event::Start);
    s.step(Event::Shutdown);
    assert_eq!(s.register_job(b"4 * * * * *", 0), Err(SchedError::NotAccepting));
    s.step(Event::HookDone);
    assert_eq!(s.register_job(b"4 * * * * *", 0), Err(SchedError::NotAccepting));
}

#[test]
fn failing_job_fires_again_and_disturbs_nothing() {
    // Isolation scenario: a task body failure changes no scheduling
    // state; the job fires again at its next due instant and other
    // jobs are unaffected.
    let mut s = Scheduler::new();
    let a = s.register_job(b"4 * * * * *", 0).unwrap();
    let b = s.register_job(b"34 * * * * *", 0).unwrap();
    s.step(Event::Start);
    assert_eq!(s.step(Event::Poll(4)), Action::Fire(vec![a], 34));
    // The task body for `a` fails.
    assert_eq!(s.step(Event::JobOutcome(a, false)), Action::Nothing);
    assert_eq!(s.state, SchedState::Running);
    // The other job fires on time.
    assert_eq!(s.step(Event::Poll(34)), Action::Fire(vec![b], 64));
    // And the failed job fires again at its own next due instant.
    assert_eq!(s.step(Event::Poll(64)), Action::Fire(vec![a], 94));
}

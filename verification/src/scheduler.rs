//! The scheduler loop's decision core.
//!
//! The loop itself (sleeping, spawning task bodies, awaiting the
//! shutdown hook) runs outside the library; every decision it takes is
//! the `step` function here, a state machine over
//! `Idle -> Running -> ShuttingDown -> Stopped`. `step` consumes an
//! event (start, a poll at some instant, a shutdown request, hook
//! completion, a task body's outcome) and says what to do: nothing,
//! fire a set of due jobs and sleep until a wake instant, or run the
//! shutdown hook.
//!
//! Failure isolation is built in: a task body's outcome, success or
//! failure, is an event that changes nothing, so a failing job stays
//! registered and fires again at its next due instant, and no other
//! job is disturbed.

use vstd::prelude::*;

use crate::parse::TriggerError;
use crate::registry::{registry_wf, spec_advanced, spec_due_ids, Registry};
use crate::time::MAX_TS;
use crate::trigger::HORIZON;

verus! {

/// How long a poll sleeps when no job has a known next-due instant,
/// in seconds.
pub const DEFAULT_POLL: u64 = 60;

#[derive(Clone, Copy, PartialEq, Eq, Structural, Debug)]
pub enum SchedState {
    /// Jobs may be registered; the loop is not yet polling.
    Idle,
    /// The loop polls and fires due jobs.
    Running,
    /// A shutdown was requested; the hook is running.
    ShuttingDown,
    /// Terminal: nothing further happens.
    Stopped,
}

/// What the outside loop observed.
#[derive(Clone, Copy, PartialEq, Eq, Structural, Debug)]
pub enum Event {
    /// The loop is told to start polling.
    Start,
    /// A poll at the given instant.
    Poll(u64),
    /// An external shutdown request.
    Shutdown,
    /// The shutdown hook has completed.
    HookDone,
    /// A launched task body finished; `true` for success. Failures are
    /// reported here and deliberately change nothing.
    JobOutcome(u64, bool),
}

/// What the outside loop must do next.
#[derive(PartialEq, Eq, Debug)]
pub enum Action {
    /// Nothing; wait for the next event.
    Nothing,
    /// Launch each listed job's task body as an independent task, then
    /// sleep until the wake instant (or an earlier event).
    Fire(Vec<u64>, u64),
    /// Run the shutdown hook, once, and report `HookDone` after it.
    RunHook,
}

/// The state after one event.
pub open spec fn next_state(st: SchedState, ev: Event) -> SchedState {
    match (st, ev) {
        (SchedState::Idle, Event::Start) => SchedState::Running,
        (SchedState::Idle, Event::Shutdown) => SchedState::ShuttingDown,
        (SchedState::Running, Event::Shutdown) => SchedState::ShuttingDown,
        (SchedState::ShuttingDown, Event::HookDone) => SchedState::Stopped,
        _ => st,
    }
}

/// Whether this event makes the hook run: only the shutdown request
/// that leaves `Idle` or `Running` does.
pub open spec fn emits_hook(st: SchedState, ev: Event) -> bool {
    (st is Idle || st is Running) && ev is Shutdown
}

/// Whether this event is a poll that may fire jobs.
pub open spec fn polls(st: SchedState, ev: Event) -> bool {
    st is Running && ev is Poll
}

pub open spec fn is_shut(st: SchedState) -> bool {
    st is ShuttingDown || st is Stopped
}

/// The state after a whole sequence of events.
pub open spec fn run_states(st: SchedState, evs: Seq<Event>) -> SchedState
    decreases evs.len(),
{
    if evs.len() == 0 {
        st
    } else {
        run_states(next_state(st, evs[0]), evs.drop_first())
    }
}

/// How often the hook runs along a sequence of events.
pub open spec fn count_hook_runs(st: SchedState, evs: Seq<Event>) -> nat
    decreases evs.len(),
{
    if evs.len() == 0 {
        0
    } else {
        (if emits_hook(st, evs[0]) {
            1nat
        } else {
            0nat
        }) + count_hook_runs(next_state(st, evs[0]), evs.drop_first())
    }
}

/// How many polls along a sequence of events may fire jobs.
pub open spec fn count_firing_polls(st: SchedState, evs: Seq<Event>) -> nat
    decreases evs.len(),
{
    if evs.len() == 0 {
        0
    } else {
        (if polls(st, evs[0]) {
            1nat
        } else {
            0nat
        }) + count_firing_polls(next_state(st, evs[0]), evs.drop_first())
    }
}

/// Once shutting down or stopped, the scheduler stays so, never fires
/// a job again, and never runs the hook again.
pub proof fn lemma_no_work_after_shutdown(st: SchedState, evs: Seq<Event>)
    requires
        is_shut(st),
    ensures
        is_shut(run_states(st, evs)),
        count_hook_runs(st, evs) == 0,
        count_firing_polls(st, evs) == 0,
    decreases evs.len(),
{
    if evs.len() > 0 {
        lemma_no_work_after_shutdown(next_state(st, evs[0]), evs.drop_first());
    }
}

/// Along any sequence of events, the shutdown hook runs at most once.
pub proof fn lemma_hook_at_most_once(st: SchedState, evs: Seq<Event>)
    ensures
        count_hook_runs(st, evs) <= 1,
    decreases evs.len(),
{
    if evs.len() > 0 {
        if emits_hook(st, evs[0]) {
            lemma_no_work_after_shutdown(next_state(st, evs[0]), evs.drop_first());
        } else {
            lemma_hook_at_most_once(next_state(st, evs[0]), evs.drop_first());
        }
    }
}

/// `Stopped` is terminal: whatever else happens, the state stays
/// `Stopped` and no job fires and no hook runs.
pub proof fn lemma_stopped_is_terminal(evs: Seq<Event>)
    ensures
        run_states(SchedState::Stopped, evs) == SchedState::Stopped,
        count_hook_runs(SchedState::Stopped, evs) == 0,
        count_firing_polls(SchedState::Stopped, evs) == 0,
    decreases evs.len(),
{
    if evs.len() > 0 {
        lemma_stopped_is_terminal(evs.drop_first());
    }
}

/// A task body's failure is invisible to scheduling: the state does not
/// change (and `step` leaves the registry untouched on any
/// `JobOutcome`), so the failed job and every other job keep their due
/// instants exactly.
pub proof fn lemma_failure_isolated(st: SchedState, id: u64)
    ensures
        next_state(st, Event::JobOutcome(id, false)) == st,
{
}

/// Why a job could not be registered.
#[derive(Clone, Copy, PartialEq, Eq, Structural, Debug)]
pub enum SchedError {
    /// The trigger expression does not parse.
    InvalidExpression,
    /// The scheduler is shutting down or stopped and accepts no jobs.
    NotAccepting,
}

/// The scheduler: its lifecycle state, its jobs, and whether the hook
/// has been invoked.
pub struct Scheduler {
    pub state: SchedState,
    pub registry: Registry,
    pub hook_invoked: bool,
}

pub open spec fn sched_wf(s: &Scheduler) -> bool {
    &&& registry_wf(&s.registry)
    &&& s.hook_invoked == is_shut(s.state)
}

impl Scheduler {
    /// A fresh scheduler: idle, no jobs, hook not yet invoked.
    pub fn new() -> (r: Scheduler)
        ensures
            sched_wf(&r),
            r.state == SchedState::Idle,
            r.registry.jobs@.len() == 0,
            r.registry.next_id == 0,
    {
        Scheduler { state: SchedState::Idle, registry: Registry::new(), hook_invoked: false }
    }

    /// Register a job while idle or running. Fails with
    /// `InvalidExpression` exactly on a malformed trigger, and with
    /// `NotAccepting` exactly when shutting down or stopped; on any
    /// failure nothing changes.
    pub fn register_job(&mut self, expr: &[u8], now: u64) -> (r: Result<u64, SchedError>)
        requires
            sched_wf(old(self)),
            old(self).registry.next_id < u64::MAX,
            now + HORIZON < MAX_TS,
        ensures
            sched_wf(final(self)),
            final(self).state == old(self).state,
            final(self).hook_invoked == old(self).hook_invoked,
            is_shut(old(self).state) ==> r == Err::<u64, SchedError>(SchedError::NotAccepting)
                && *final(self) == *old(self),
            !is_shut(old(self).state) ==> match r {
                Ok(id) => {
                    &&& id == old(self).registry.next_id
                    &&& final(self).registry.jobs@.len() == old(self).registry.jobs@.len() + 1
                    &&& final(self).registry.jobs@.subrange(
                        0,
                        old(self).registry.jobs@.len() as int,
                    ) == old(self).registry.jobs@
                    &&& final(self).registry.jobs@.last().id == id
                },
                Err(e) => {
                    &&& e == SchedError::InvalidExpression
                    &&& crate::parse::spec_parse(expr@) is None
                    &&& *final(self) == *old(self)
                },
            },
    {
        match self.state {
            SchedState::ShuttingDown => Err(SchedError::NotAccepting),
            SchedState::Stopped => Err(SchedError::NotAccepting),
            _ => match self.registry.register(expr, now) {
                Ok(id) => Ok(id),
                Err(TriggerError::InvalidExpression) => Err(SchedError::InvalidExpression),
            },
        }
    }

    /// Remove a job; report whether it existed.
    pub fn remove_job(&mut self, id: u64) -> (r: bool)
        requires
            sched_wf(old(self)),
        ensures
            sched_wf(final(self)),
            final(self).state == old(self).state,
            r == exists|i: int|
                0 <= i < old(self).registry.jobs@.len() && (#[trigger] old(
                    self,
                ).registry.jobs@[i]).id == id,
    {
        self.registry.remove(id)
    }

    /// Feed one event to the state machine and learn what to do.
    ///
    /// The returned action is `RunHook` exactly on the shutdown request
    /// that leaves `Idle` or `Running`; a poll while `Running` fires
    /// exactly the due jobs and advances them past `now`; every other
    /// event leaves the registry untouched and demands nothing.
    pub fn step(&mut self, ev: Event) -> (a: Action)
        requires
            sched_wf(old(self)),
            ev matches Event::Poll(now) ==> now + 1 + HORIZON < MAX_TS,
        ensures
            sched_wf(final(self)),
            final(self).state == next_state(old(self).state, ev),
            final(self).registry.next_id == old(self).registry.next_id,
            final(self).hook_invoked == (old(self).hook_invoked || emits_hook(
                old(self).state,
                ev,
            )),
            (a is RunHook) == emits_hook(old(self).state, ev),
            !polls(old(self).state, ev) ==> final(self).registry == old(self).registry && !(a
                is Fire),
            polls(old(self).state, ev) ==> ({
                let now = ev->Poll_0 as int;
                &&& final(self).registry.jobs@ == spec_advanced(old(self).registry.jobs@, now)
                &&& match a {
                    Action::Fire(ids, wake) => {
                        &&& ids@ == spec_due_ids(old(self).registry.jobs@, now)
                        &&& ({
                            let jobs = final(self).registry.jobs@;
                            ((exists|i: int|
                                0 <= i < jobs.len() && (#[trigger] jobs[i]).next_due == Some(
                                    wake,
                                )) && (forall|i: int|
                                0 <= i < jobs.len() && (#[trigger] jobs[i]).next_due is Some
                                    ==> wake <= jobs[i].next_due->Some_0)) || ((forall|i: int|
                                0 <= i < jobs.len() ==> (#[trigger] jobs[i]).next_due is None)
                                && wake == now + DEFAULT_POLL)
                        })
                    },
                    _ => false,
                }
            }),
    {
        match ev {
            Event::Start => {
                if matches!(self.state, SchedState::Idle) {
                    self.state = SchedState::Running;
                }
                Action::Nothing
            },
            Event::Shutdown => {
                match self.state {
                    SchedState::Idle | SchedState::Running => {
                        self.state = SchedState::ShuttingDown;
                        self.hook_invoked = true;
                        Action::RunHook
                    },
                    _ => Action::Nothing,
                }
            },
            Event::HookDone => {
                if matches!(self.state, SchedState::ShuttingDown) {
                    self.state = SchedState::Stopped;
                }
                Action::Nothing
            },
            Event::JobOutcome(_, _) => Action::Nothing,
            Event::Poll(now) => {
                if !matches!(self.state, SchedState::Running) {
                    return Action::Nothing;
                }
                let due = self.registry.due_jobs(now);
                let wake = match self.registry.min_next_due() {
                    Some(m) => m,
                    None => now + DEFAULT_POLL,
                };
                Action::Fire(due, wake)
            },
        }
    }
}

} // verus!

//! The job registry: the set of scheduled jobs with their triggers and
//! scheduling state.
//!
//! Ids are unique for the registry's lifetime. `due_jobs` reports every
//! job whose next-due instant has been reached and, in the same step,
//! advances it to the first matching instant strictly after `now`, so a
//! second check at the same instant reports nothing
//! (`lemma_no_double_fire`).

use vstd::prelude::*;

use crate::parse::{parse_trigger, spec_parse, trigger_form, TriggerError};
use crate::time::MAX_TS;
use crate::trigger::{
    lemma_first_match_props, spec_next_due, trigger_matches, trigger_wf, Trigger,
    HORIZON,
};

verus! {

/// One scheduled job: its id, its trigger, and its scheduling state.
pub struct JobEntry {
    pub id: u64,
    pub trigger: Trigger,
    /// The next instant the job is due, if one is known.
    pub next_due: Option<u64>,
    /// The instant of the job's latest firing, if any.
    pub last_run: Option<u64>,
}

pub open spec fn entry_wf(e: &JobEntry) -> bool {
    &&& trigger_wf(&e.trigger)
    &&& e.next_due is Some ==> trigger_matches(&e.trigger, e.next_due->Some_0 as int)
}

/// The registry: every live job, and the id counter.
pub struct Registry {
    pub jobs: Vec<JobEntry>,
    pub next_id: u64,
}

pub open spec fn registry_wf(r: &Registry) -> bool {
    &&& forall|i: int, j: int|
        0 <= i < r.jobs@.len() && 0 <= j < r.jobs@.len() && i != j ==> r.jobs@[i].id
            != r.jobs@[j].id
    &&& forall|i: int| 0 <= i < r.jobs@.len() ==> (#[trigger] r.jobs@[i]).id < r.next_id
    &&& forall|i: int| 0 <= i < r.jobs@.len() ==> entry_wf(&(#[trigger] r.jobs@[i]))
}

/// Whether a job is due at `now`.
pub open spec fn entry_due(e: JobEntry, now: int) -> bool {
    e.next_due is Some && e.next_due->Some_0 <= now
}

/// The ids of the jobs due at `now`, in registry order.
pub open spec fn spec_due_ids(jobs: Seq<JobEntry>, now: int) -> Seq<u64>
    decreases jobs.len(),
{
    if jobs.len() == 0 {
        Seq::empty()
    } else {
        let rest = spec_due_ids(jobs.drop_last(), now);
        if entry_due(jobs.last(), now) {
            rest.push(jobs.last().id)
        } else {
            rest
        }
    }
}

/// A job after one due-check at `now`: a due job moves to the first
/// matching instant strictly after `now` and records the firing; any
/// other job is untouched.
pub open spec fn advance_entry(e: JobEntry, now: int) -> JobEntry {
    if entry_due(e, now) {
        JobEntry {
            id: e.id,
            trigger: e.trigger,
            next_due: match spec_next_due(&e.trigger, now + 1) {
                Some(s) => Some(s as u64),
                None => None,
            },
            last_run: Some(now as u64),
        }
    } else {
        e
    }
}

pub open spec fn spec_advanced(jobs: Seq<JobEntry>, now: int) -> Seq<JobEntry> {
    Seq::new(jobs.len(), |i: int| advance_entry(jobs[i], now))
}

proof fn lemma_due_ids_of_idle(jobs: Seq<JobEntry>, now: int)
    requires
        forall|i: int| 0 <= i < jobs.len() ==> !entry_due(#[trigger] jobs[i], now),
    ensures
        spec_due_ids(jobs, now) == Seq::<u64>::empty(),
    decreases jobs.len(),
{
    if jobs.len() > 0 {
        lemma_due_ids_of_idle(jobs.drop_last(), now);
    }
}

/// After a due-check at `now`, nothing is due at `now` any more: no job
/// can be reported due twice for the same firing.
pub proof fn lemma_no_double_fire(jobs: Seq<JobEntry>, now: int)
    requires
        0 <= now,
        now + 1 + HORIZON < MAX_TS,
    ensures
        spec_due_ids(spec_advanced(jobs, now), now) == Seq::<u64>::empty(),
{
    let adv = spec_advanced(jobs, now);
    assert forall|i: int| 0 <= i < adv.len() implies !entry_due(#[trigger] adv[i], now) by {
        assert(adv[i] == advance_entry(jobs[i], now));
        if entry_due(jobs[i], now) {
            lemma_first_match_props(&jobs[i].trigger, now + 1, now + 1 + HORIZON);
        }
    }
    lemma_due_ids_of_idle(adv, now);
}

impl Registry {
    /// An empty registry.
    pub fn new() -> (r: Registry)
        ensures
            registry_wf(&r),
            r.jobs@.len() == 0,
            r.next_id == 0,
    {
        Registry { jobs: Vec::new(), next_id: 0 }
    }

    /// Register a job under a fresh id, due first at the earliest
    /// instant at or after `now` that its trigger matches. Fails exactly
    /// when the expression cannot be parsed, and then changes nothing.
    pub fn register(&mut self, expr: &[u8], now: u64) -> (r: Result<u64, TriggerError>)
        requires
            registry_wf(old(self)),
            old(self).next_id < u64::MAX,
            now + HORIZON < MAX_TS,
        ensures
            registry_wf(final(self)),
            match r {
                Ok(id) => {
                    &&& id == old(self).next_id
                    &&& final(self).next_id == id + 1
                    &&& final(self).jobs@.len() == old(self).jobs@.len() + 1
                    &&& final(self).jobs@.subrange(0, old(self).jobs@.len() as int) == old(
                        self,
                    ).jobs@
                    &&& ({
                        let e = final(self).jobs@.last();
                        &&& e.id == id
                        &&& spec_parse(expr@) == Some(trigger_form(&e.trigger))
                        &&& match e.next_due {
                            Some(d) => spec_next_due(&e.trigger, now as int) == Some(d as int),
                            None => spec_next_due(&e.trigger, now as int) is None,
                        }
                        &&& e.last_run is None
                    })
                },
                Err(_) => *final(self) == *old(self) && spec_parse(expr@) is None,
            },
    {
        match parse_trigger(expr) {
            Err(e) => Err(e),
            Ok(t) => {
                let id = self.next_id;
                let nd = t.next_due(now);
                proof {
                    if nd is Some {
                        lemma_first_match_props(&t, now as int, now + HORIZON);
                    }
                }
                let entry = JobEntry { id, trigger: t, next_due: nd, last_run: None };
                self.jobs.push(entry);
                self.next_id = id + 1;
                proof {
                    assert(self.jobs@.subrange(0, old(self).jobs@.len() as int) =~= old(
                        self,
                    ).jobs@);
                }
                Ok(id)
            },
        }
    }

    /// Remove the job with the given id; report whether one existed.
    /// Ids are unique, so at most one entry leaves; the others keep
    /// their order.
    pub fn remove(&mut self, id: u64) -> (r: bool)
        requires
            registry_wf(old(self)),
        ensures
            registry_wf(final(self)),
            final(self).next_id == old(self).next_id,
            r == exists|i: int|
                0 <= i < old(self).jobs@.len() && (#[trigger] old(self).jobs@[i]).id == id,
            r ==> exists|i: int|
                0 <= i < old(self).jobs@.len() && (#[trigger] old(self).jobs@[i]).id == id
                    && final(self).jobs@ == old(self).jobs@.remove(i),
            !r ==> *final(self) == *old(self),
    {
        let mut i: usize = 0;
        while i < self.jobs.len()
            invariant
                registry_wf(self),
                *self == *old(self),
                i <= self.jobs@.len(),
                forall|k: int| 0 <= k < i ==> (#[trigger] self.jobs@[k]).id != id,
            decreases self.jobs@.len() - i,
        {
            if self.jobs[i].id == id {
                self.jobs.remove(i);
                proof {
                    let cut = old(self).jobs@.remove(i as int);
                    assert(forall|a: int| 0 <= a < i ==> cut[a] == old(self).jobs@[a]);
                    assert(forall|a: int|
                        i <= a < cut.len() ==> cut[a] == old(self).jobs@[a + 1]);
                }
                return true;
            }
            i = i + 1;
        }
        false
    }

    /// A snapshot of the live job ids, in registry order.
    pub fn list(&self) -> (r: Vec<u64>)
        ensures
            r@ == self.jobs@.map_values(|e: JobEntry| e.id),
    {
        let mut out: Vec<u64> = Vec::new();
        let mut i: usize = 0;
        while i < self.jobs.len()
            invariant
                i <= self.jobs@.len(),
                out@ == self.jobs@.subrange(0, i as int).map_values(|e: JobEntry| e.id),
            decreases self.jobs@.len() - i,
        {
            out.push(self.jobs[i].id);
            proof {
                assert(self.jobs@.subrange(0, i as int + 1).map_values(|e: JobEntry| e.id)
                    =~= self.jobs@.subrange(0, i as int).map_values(|e: JobEntry| e.id).push(
                    self.jobs@[i as int].id,
                ));
            }
            i = i + 1;
        }
        proof {
            assert(self.jobs@.subrange(0, self.jobs@.len() as int) =~= self.jobs@);
        }
        out
    }

    /// Report every job due at `now` and advance each one past `now`,
    /// in one atomic step over the registry.
    pub fn due_jobs(&mut self, now: u64) -> (r: Vec<u64>)
        requires
            registry_wf(old(self)),
            now + 1 + HORIZON < MAX_TS,
        ensures
            registry_wf(final(self)),
            r@ == spec_due_ids(old(self).jobs@, now as int),
            final(self).jobs@ == spec_advanced(old(self).jobs@, now as int),
            final(self).next_id == old(self).next_id,
    {
        let ghost orig = self.jobs@;
        let ghost n = orig.len() as int;
        let mut due: Vec<u64> = Vec::new();
        let mut out: Vec<JobEntry> = Vec::new();
        let mut work: Vec<JobEntry> = Vec::new();
        core::mem::swap(&mut self.jobs, &mut work);
        let total = work.len();
        let mut i: usize = 0;
        while work.len() > 0
            invariant
                registry_wf(old(self)),
                total as int == n,
                i as int + work@.len() == n,
                old(self).jobs@ == orig,
                now + 1 + HORIZON < MAX_TS,
                orig.len() == n,
                i <= n,
                work@ == orig.subrange(i as int, n),
                out@.len() == i,
                forall|j: int| 0 <= j < i ==> out@[j] == advance_entry(#[trigger] orig[j], now as int),
                due@ == spec_due_ids(orig.subrange(0, i as int), now as int),
            decreases work@.len(),
        {
            let e = work.remove(0);
            proof {
                assert(e == orig[i as int]);
                assert(work@ =~= orig.subrange(i as int + 1, n));
                assert(orig.subrange(0, i as int + 1).drop_last() =~= orig.subrange(0, i as int));
                assert(orig.subrange(0, i as int + 1).last() == orig[i as int]);
                assert(entry_wf(&orig[i as int]));
            }
            let is_due = match e.next_due {
                Some(d) => d <= now,
                None => false,
            };
            if is_due {
                due.push(e.id);
                let nd = e.trigger.next_due(now + 1);
                let advanced = JobEntry {
                    id: e.id,
                    trigger: e.trigger,
                    next_due: nd,
                    last_run: Some(now),
                };
                proof {
                    assert(advanced == advance_entry(orig[i as int], now as int));
                }
                out.push(advanced);
            } else {
                out.push(e);
            }
            i = i + 1;
        }
        proof {
            assert(i as int == n);
            assert(orig.subrange(0, n) =~= orig);
            assert(out@ =~= spec_advanced(orig, now as int));
            assert forall|j: int| 0 <= j < n implies entry_wf(
                &(#[trigger] spec_advanced(orig, now as int)[j]),
            ) by {
                if entry_due(orig[j], now as int) {
                    lemma_first_match_props(&orig[j].trigger, now + 1, now + 1 + HORIZON);
                }
            }
        }
        self.jobs = out;
        due
    }

    /// The earliest known next-due instant over all jobs, if any job has
    /// one: the scheduler sleeps until then.
    pub fn min_next_due(&self) -> (r: Option<u64>)
        ensures
            match r {
                Some(m) => (exists|i: int|
                    0 <= i < self.jobs@.len() && (#[trigger] self.jobs@[i]).next_due == Some(m))
                    && forall|i: int|
                    0 <= i < self.jobs@.len() && (#[trigger] self.jobs@[i]).next_due is Some
                        ==> m <= self.jobs@[i].next_due->Some_0,
                None => forall|i: int|
                    0 <= i < self.jobs@.len() ==> (#[trigger] self.jobs@[i]).next_due is None,
            },
    {
        let mut best: Option<u64> = None;
        let mut i: usize = 0;
        while i < self.jobs.len()
            invariant
                i <= self.jobs@.len(),
                match best {
                    Some(m) => (exists|k: int|
                        0 <= k < i && (#[trigger] self.jobs@[k]).next_due == Some(m))
                        && (forall|k: int|
                        0 <= k < i && (#[trigger] self.jobs@[k]).next_due is Some ==> m
                            <= self.jobs@[k].next_due->Some_0),
                    None => forall|k: int|
                        0 <= k < i ==> (#[trigger] self.jobs@[k]).next_due is None,
                },
            decreases self.jobs@.len() - i,
        {
            let e_next = self.jobs[i].next_due;
            match (best, e_next) {
                (None, Some(d)) => {
                    best = Some(d);
                },
                (Some(m), Some(d)) => {
                    if d < m {
                        best = Some(d);
                    }
                },
                _ => {},
            }
            i = i + 1;
        }
        best
    }
}

} // verus!

//! The schedule trigger evaluator.
//!
//! A trigger is a six-field, cron-like schedule: second, minute, hour,
//! day of month, month, day of week (0 is Sunday). Each field is a list
//! of parts; a part is a literal value, a wildcard, a range `a-b`, or a
//! stepped range `a-b/k` (`*/k` steps over the whole field). Fields are
//! separated by single spaces, parts by commas; values have one or two
//! digits. An instant matches a trigger when every field's value set
//! contains the instant's component, except that when both day-of-month
//! and day-of-week are constrained (neither is a bare wildcard) either
//! of the two suffices.

use vstd::prelude::*;

use crate::time::{
    civil_from_days, date_of, dow_of, hour_of, min_of, sec_of, MAX_DAYS, MAX_TS,
};

verus! {

/// How far past the reference instant `next_due` searches for a match,
/// in seconds: a little over four years, enough to cross any leap cycle
/// short of a skipped century leap day.
pub const HORIZON: u64 = 126_316_800;

/// One alternative of a trigger field.
#[derive(Clone, Copy, PartialEq, Eq, Structural, Debug)]
pub enum Part {
    /// `*`: any value.
    All,
    /// A single value.
    Lit(u64),
    /// All values of `a..=b`.
    Range(u64, u64),
    /// Every `k`-th value of `a..=b`, starting at `a`.
    Step(u64, u64, u64),
}

pub open spec fn part_wf(p: Part, lo: u64, hi: u64) -> bool {
    match p {
        Part::All => true,
        Part::Lit(v) => lo <= v <= hi,
        Part::Range(a, b) => lo <= a <= b <= hi,
        Part::Step(a, b, k) => lo <= a <= b <= hi && k >= 1,
    }
}

pub open spec fn part_matches(p: Part, v: int) -> bool {
    match p {
        Part::All => true,
        Part::Lit(x) => v == x,
        Part::Range(a, b) => a <= v <= b,
        Part::Step(a, b, k) => a <= v <= b && (v - a) % (k as int) == 0,
    }
}

pub open spec fn field_wf(f: Seq<Part>, lo: u64, hi: u64) -> bool {
    f.len() >= 1 && forall|i: int| 0 <= i < f.len() ==> part_wf(#[trigger] f[i], lo, hi)
}

pub open spec fn field_matches(f: Seq<Part>, v: int) -> bool {
    exists|i: int| 0 <= i < f.len() && part_matches(#[trigger] f[i], v)
}

/// A field that places no constraint at all: a lone wildcard.
pub open spec fn is_wild(f: Seq<Part>) -> bool {
    f.len() == 1 && f[0] is All
}

/// A parsed six-field trigger.
#[derive(Debug)]
pub struct Trigger {
    pub secs: Vec<Part>,
    pub mins: Vec<Part>,
    pub hours: Vec<Part>,
    pub doms: Vec<Part>,
    pub months: Vec<Part>,
    pub dows: Vec<Part>,
}

pub open spec fn trigger_wf(t: &Trigger) -> bool {
    &&& field_wf(t.secs@, 0, 59)
    &&& field_wf(t.mins@, 0, 59)
    &&& field_wf(t.hours@, 0, 23)
    &&& field_wf(t.doms@, 1, 31)
    &&& field_wf(t.months@, 1, 12)
    &&& field_wf(t.dows@, 0, 6)
}

/// The day-of-month / day-of-week rule: when both are constrained,
/// matching either suffices; otherwise both must match (a wildcard
/// matches everything anyway).
pub open spec fn dom_dow_ok(t: &Trigger, at: int) -> bool {
    if !is_wild(t.doms@) && !is_wild(t.dows@) {
        field_matches(t.doms@, date_of(at).day as int) || field_matches(t.dows@, dow_of(at))
    } else {
        field_matches(t.doms@, date_of(at).day as int) && field_matches(t.dows@, dow_of(at))
    }
}

/// Whether the trigger matches the instant `at`.
pub open spec fn trigger_matches(t: &Trigger, at: int) -> bool {
    &&& field_matches(t.secs@, sec_of(at))
    &&& field_matches(t.mins@, min_of(at))
    &&& field_matches(t.hours@, hour_of(at))
    &&& field_matches(t.months@, date_of(at).month as int)
    &&& dom_dow_ok(t, at)
}

/// The first matching instant in `s..=hi`, if any.
pub open spec fn first_match_from(t: &Trigger, s: int, hi: int) -> Option<int>
    decreases hi + 1 - s,
{
    if s > hi {
        None
    } else if trigger_matches(t, s) {
        Some(s)
    } else {
        first_match_from(t, s + 1, hi)
    }
}

/// The first matching instant at or after `from`, searched over `HORIZON` seconds.
pub open spec fn spec_next_due(t: &Trigger, from: int) -> Option<int> {
    first_match_from(t, from, from + HORIZON)
}

pub proof fn lemma_first_match_props(t: &Trigger, s: int, hi: int)
    ensures
        match first_match_from(t, s, hi) {
            Some(m) => s <= m <= hi && trigger_matches(t, m) && forall|k: int|
                s <= k < m ==> !trigger_matches(t, k),
            None => forall|k: int| s <= k <= hi ==> !trigger_matches(t, k),
        },
    decreases hi + 1 - s,
{
    if s > hi {
    } else if trigger_matches(t, s) {
    } else {
        lemma_first_match_props(t, s + 1, hi);
    }
}

/// `next_due` is monotone: a later reference instant never yields an
/// earlier due instant.
pub proof fn lemma_next_due_monotonic(t: &Trigger, t1: int, t2: int)
    requires
        t1 <= t2,
        spec_next_due(t, t1) is Some,
        spec_next_due(t, t2) is Some,
    ensures
        spec_next_due(t, t1)->Some_0 <= spec_next_due(t, t2)->Some_0,
{
    lemma_first_match_props(t, t1, t1 + HORIZON);
    lemma_first_match_props(t, t2, t2 + HORIZON);
    let s1 = spec_next_due(t, t1)->Some_0;
    let s2 = spec_next_due(t, t2)->Some_0;
    if s2 <= t1 + HORIZON && s1 > s2 {
        assert(t1 <= s2 < s1 && trigger_matches(t, s2));
        assert(false);
    }
}

/// `next_due` is idempotent at its fixed point: queried exactly at a due
/// instant, it returns that instant again.
pub proof fn lemma_next_due_idempotent(t: &Trigger, from: int)
    requires
        spec_next_due(t, from) is Some,
    ensures
        spec_next_due(t, spec_next_due(t, from)->Some_0) == spec_next_due(t, from),
{
    lemma_first_match_props(t, from, from + HORIZON);
    let s = spec_next_due(t, from)->Some_0;
    assert(first_match_from(t, s, s + HORIZON) == Some(s));
}

/// The one execution-relevant piece of part well-formedness: a step is
/// never zero, so the step test can take a remainder.
pub open spec fn part_step_pos(p: Part) -> bool {
    p matches Part::Step(_, _, k) ==> k >= 1
}

/// A trigger of six bare wildcards (the form `* * * * * *` parses to)
/// matches every instant.
pub proof fn lemma_all_wild_matches_everything(t: &Trigger, at: int)
    requires
        is_wild(t.secs@),
        is_wild(t.mins@),
        is_wild(t.hours@),
        is_wild(t.doms@),
        is_wild(t.months@),
        is_wild(t.dows@),
    ensures
        trigger_matches(t, at),
{
    assert(part_matches(t.secs@[0], sec_of(at)));
    assert(part_matches(t.mins@[0], min_of(at)));
    assert(part_matches(t.hours@[0], hour_of(at)));
    assert(part_matches(t.doms@[0], date_of(at).day as int));
    assert(part_matches(t.months@[0], date_of(at).month as int));
    assert(part_matches(t.dows@[0], dow_of(at)));
}

/// A trigger whose seconds field is one literal and whose other five
/// fields are bare wildcards (the form `4 * * * * *` parses to) matches
/// exactly the instants with that seconds component.
pub proof fn lemma_seconds_literal_matches_exactly(t: &Trigger, at: int, v: u64)
    requires
        t.secs@ =~= seq![Part::Lit(v)],
        is_wild(t.mins@),
        is_wild(t.hours@),
        is_wild(t.doms@),
        is_wild(t.months@),
        is_wild(t.dows@),
    ensures
        trigger_matches(t, at) <==> sec_of(at) == v,
{
    if sec_of(at) == v {
        assert(part_matches(t.secs@[0], sec_of(at)));
        assert(part_matches(t.mins@[0], min_of(at)));
        assert(part_matches(t.hours@[0], hour_of(at)));
        assert(part_matches(t.doms@[0], date_of(at).day as int));
        assert(part_matches(t.months@[0], date_of(at).month as int));
        assert(part_matches(t.dows@[0], dow_of(at)));
    }
}

impl Trigger {
    fn part_matches_x(p: &Part, v: u64) -> (r: bool)
        requires
            part_step_pos(*p),
        ensures
            r == part_matches(*p, v as int),
    {
        match p {
            Part::All => true,
            Part::Lit(x) => v == *x,
            Part::Range(a, b) => *a <= v && v <= *b,
            Part::Step(a, b, k) => *a <= v && v <= *b && (v - *a) % *k == 0,
        }
    }

    fn field_matches_x(f: &Vec<Part>, v: u64) -> (r: bool)
        requires
            forall|i: int| 0 <= i < f@.len() ==> part_step_pos(#[trigger] f@[i]),
        ensures
            r == field_matches(f@, v as int),
    {
        let mut i: usize = 0;
        while i < f.len()
            invariant
                i <= f@.len(),
                forall|j: int| 0 <= j < f@.len() ==> part_step_pos(#[trigger] f@[j]),
                forall|j: int| 0 <= j < i ==> !part_matches(#[trigger] f@[j], v as int),
            decreases f@.len() - i,
        {
            if Self::part_matches_x(&f[i], v) {
                return true;
            }
            i = i + 1;
        }
        false
    }

    fn is_wild_x(f: &Vec<Part>) -> (r: bool)
        ensures
            r == is_wild(f@),
    {
        f.len() == 1 && matches!(f[0], Part::All)
    }

    /// Whether this trigger matches the instant `at`.
    pub fn matches_at(&self, at: u64) -> (r: bool)
        requires
            trigger_wf(self),
            at < MAX_TS,
        ensures
            r == trigger_matches(self, at as int),
    {
        let s = at % 60;
        let m = (at / 60) % 60;
        let h = (at / 3600) % 24;
        let days = at / 86400;
        let dw = (days + 4) % 7;
        assert(days < MAX_DAYS) by {
            assert(at as int / 86400 < MAX_DAYS as int);
        };
        let date = civil_from_days(days);
        assert(date == date_of(at as int));
        let sec_ok = Self::field_matches_x(&self.secs, s);
        let min_ok = Self::field_matches_x(&self.mins, m);
        let hour_ok = Self::field_matches_x(&self.hours, h);
        let month_ok = Self::field_matches_x(&self.months, date.month);
        let dom_ok = Self::field_matches_x(&self.doms, date.day);
        let dow_ok = Self::field_matches_x(&self.dows, dw);
        let dd_ok = if !Self::is_wild_x(&self.doms) && !Self::is_wild_x(&self.dows) {
            dom_ok || dow_ok
        } else {
            dom_ok && dow_ok
        };
        sec_ok && min_ok && hour_ok && month_ok && dd_ok
    }

    /// The first matching instant at or after `from`, or `None` if no
    /// instant within the next `HORIZON` seconds matches.
    pub fn next_due(&self, from: u64) -> (r: Option<u64>)
        requires
            trigger_wf(self),
            from + HORIZON < MAX_TS,
        ensures
            match r {
                Some(s) => spec_next_due(self, from as int) == Some(s as int),
                None => spec_next_due(self, from as int) is None,
            },
    {
        let hi = from + HORIZON;
        let mut s = from;
        while s <= hi
            invariant
                trigger_wf(self),
                hi == from + HORIZON,
                hi < MAX_TS,
                from <= s <= hi + 1,
                first_match_from(self, from as int, hi as int) == first_match_from(
                    self,
                    s as int,
                    hi as int,
                ),
            decreases hi + 1 - s,
        {
            if self.matches_at(s) {
                return Some(s);
            }
            s = s + 1;
        }
        None
    }
}

} // verus!

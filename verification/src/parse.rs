//! Parsing trigger expressions.
//!
//! The grammar is stated once, as spec functions over byte sequences,
//! and the executable parser is proved to agree with it exactly:
//!
//! ```text
//! expr  := field ' ' field ' ' field ' ' field ' ' field ' ' field
//! field := atom (',' atom)*
//! atom  := '*' | '*' '/' num | num | num '-' num | num '-' num '/' num
//! num   := one or two ASCII digits
//! ```
//!
//! The six fields are second (0-59), minute (0-59), hour (0-23), day of
//! month (1-31), month (1-12) and day of week (0-6, 0 is Sunday). An
//! atom whose values fall outside its field's bounds, an empty range, or
//! a zero step makes the whole expression invalid.

use vstd::prelude::*;

use crate::trigger::{field_wf, part_wf, Part, Trigger};

verus! {

pub open spec fn is_digit(b: u8) -> bool {
    48 <= b <= 57
}

pub open spec fn digit_val(b: u8) -> int {
    b - 48
}

/// The value of a one- or two-digit numeral, `None` for anything else.
pub open spec fn spec_num(s: Seq<u8>) -> Option<u64> {
    if s.len() == 1 && is_digit(s[0]) {
        Some(digit_val(s[0]) as u64)
    } else if s.len() == 2 && is_digit(s[0]) && is_digit(s[1]) {
        Some((digit_val(s[0]) * 10 + digit_val(s[1])) as u64)
    } else {
        None
    }
}

/// The index of the first occurrence of `c` in `s`, or `-1`.
pub open spec fn find_byte(s: Seq<u8>, c: u8) -> int
    decreases s.len(),
{
    if s.len() == 0 {
        -1
    } else if s[0] == c {
        0
    } else {
        let r = find_byte(s.subrange(1, s.len() as int), c);
        if r < 0 {
            -1
        } else {
            r + 1
        }
    }
}

pub proof fn lemma_find_byte(s: Seq<u8>, c: u8)
    ensures
        ({
            let r = find_byte(s, c);
            &&& r == -1 ==> forall|i: int| 0 <= i < s.len() ==> s[i] != c
            &&& r >= 0 ==> 0 <= r < s.len() && s[r] == c && forall|i: int| 0 <= i < r ==> s[i] != c
        }),
    decreases s.len(),
{
    if s.len() > 0 && s[0] != c {
        let t = s.subrange(1, s.len() as int);
        lemma_find_byte(t, c);
        let rt = find_byte(t, c);
        assert(forall|i: int| 1 <= i < s.len() ==> s[i] == t[i - 1]);
        if rt >= 0 {
            assert(find_byte(s, c) == rt + 1);
            assert(s[rt + 1] == t[rt]);
            assert forall|i: int| 0 <= i < rt + 1 implies s[i] != c by {
                if i >= 1 {
                    assert(s[i] == t[i - 1]);
                }
            }
        } else {
            assert forall|i: int| 0 <= i < s.len() implies s[i] != c by {
                if i >= 1 {
                    assert(s[i] == t[i - 1]);
                }
            }
        }
    }
}

pub proof fn lemma_find_byte_at(s: Seq<u8>, c: u8, i: int)
    requires
        0 <= i < s.len(),
        s[i] == c,
        forall|k: int| 0 <= k < i ==> s[k] != c,
    ensures
        find_byte(s, c) == i,
    decreases s.len(),
{
    if i > 0 {
        lemma_find_byte_at(s.subrange(1, s.len() as int), c, i - 1);
    }
}

pub proof fn lemma_find_byte_none(s: Seq<u8>, c: u8)
    requires
        forall|k: int| 0 <= k < s.len() ==> s[k] != c,
    ensures
        find_byte(s, c) == -1,
    decreases s.len(),
{
    if s.len() > 0 {
        lemma_find_byte_none(s.subrange(1, s.len() as int), c);
    }
}

/// `s` split on `c`: the pieces between occurrences, separators dropped.
pub open spec fn spec_split(s: Seq<u8>, c: u8) -> Seq<Seq<u8>>
    decreases s.len(),
{
    let p = find_byte(s, c);
    if !(0 <= p < s.len()) {
        seq![s]
    } else {
        seq![s.subrange(0, p)] + spec_split(s.subrange(p + 1, s.len() as int), c)
    }
}

/// The part denoted by one atom, over the field bounds `lo..=hi`.
pub open spec fn spec_atom(s: Seq<u8>, lo: u64, hi: u64) -> Option<Part> {
    if s.len() == 1 && s[0] == 42 {
        Some(Part::All)
    } else if s.len() >= 2 && s[0] == 42 && s[1] == 47 {
        match spec_num(s.subrange(2, s.len() as int)) {
            Some(k) => if k >= 1 {
                Some(Part::Step(lo, hi, k))
            } else {
                None
            },
            None => None,
        }
    } else {
        let dash = find_byte(s, 45);
        let slash = find_byte(s, 47);
        if dash < 0 && slash < 0 {
            match spec_num(s) {
                Some(v) => if lo <= v <= hi {
                    Some(Part::Lit(v))
                } else {
                    None
                },
                None => None,
            }
        } else if dash >= 0 && slash < 0 {
            match (spec_num(s.subrange(0, dash)), spec_num(s.subrange(dash + 1, s.len() as int))) {
                (Some(a), Some(b)) => if lo <= a <= b <= hi {
                    Some(Part::Range(a, b))
                } else {
                    None
                },
                _ => None,
            }
        } else if dash >= 0 && slash >= 0 && dash < slash {
            match (
                spec_num(s.subrange(0, dash)),
                spec_num(s.subrange(dash + 1, slash)),
                spec_num(s.subrange(slash + 1, s.len() as int)),
            ) {
                (Some(a), Some(b), Some(k)) => if lo <= a <= b <= hi && k >= 1 {
                    Some(Part::Step(a, b, k))
                } else {
                    None
                },
                _ => None,
            }
        } else {
            None
        }
    }
}

/// The parts denoted by one comma-separated field.
pub open spec fn spec_field(s: Seq<u8>, lo: u64, hi: u64) -> Option<Seq<Part>>
    decreases s.len(),
{
    let p = find_byte(s, 44);
    if !(0 <= p < s.len()) {
        match spec_atom(s, lo, hi) {
            Some(pt) => Some(seq![pt]),
            None => None,
        }
    } else {
        match spec_atom(s.subrange(0, p), lo, hi) {
            Some(pt) => match spec_field(s.subrange(p + 1, s.len() as int), lo, hi) {
                Some(rest) => Some(seq![pt] + rest),
                None => None,
            },
            None => None,
        }
    }
}

/// The six field part-lists of a whole trigger expression.
pub struct TriggerForm {
    pub secs: Seq<Part>,
    pub mins: Seq<Part>,
    pub hours: Seq<Part>,
    pub doms: Seq<Part>,
    pub months: Seq<Part>,
    pub dows: Seq<Part>,
}

/// The trigger denoted by a whole expression, `None` for a syntax or
/// bounds error anywhere in it.
pub open spec fn spec_parse(s: Seq<u8>) -> Option<TriggerForm> {
    let fs = spec_split(s, 32);
    if fs.len() != 6 {
        None
    } else {
        match (
            spec_field(fs[0], 0, 59),
            spec_field(fs[1], 0, 59),
            spec_field(fs[2], 0, 23),
            spec_field(fs[3], 1, 31),
            spec_field(fs[4], 1, 12),
            spec_field(fs[5], 0, 6),
        ) {
            (Some(a), Some(b), Some(c), Some(d), Some(e), Some(f)) => Some(
                TriggerForm { secs: a, mins: b, hours: c, doms: d, months: e, dows: f },
            ),
            _ => None,
        }
    }
}

/// The form a parsed `Trigger` value denotes.
pub open spec fn trigger_form(t: &Trigger) -> TriggerForm {
    TriggerForm {
        secs: t.secs@,
        mins: t.mins@,
        hours: t.hours@,
        doms: t.doms@,
        months: t.months@,
        dows: t.dows@,
    }
}

/// Every part a field denotes lies within the field's bounds.
pub proof fn lemma_spec_field_wf(s: Seq<u8>, lo: u64, hi: u64)
    requires
        lo <= hi,
        spec_field(s, lo, hi) is Some,
    ensures
        field_wf(spec_field(s, lo, hi)->Some_0, lo, hi),
    decreases s.len(),
{
    let p = find_byte(s, 44);
    if !(0 <= p < s.len()) {
        assert(part_wf(spec_atom(s, lo, hi)->Some_0, lo, hi));
    } else {
        lemma_spec_field_wf(s.subrange(p + 1, s.len() as int), lo, hi);
        assert(part_wf(spec_atom(s.subrange(0, p), lo, hi)->Some_0, lo, hi));
    }
}

/// Why an expression was rejected.
#[derive(Clone, Copy, PartialEq, Eq, Structural, Debug)]
pub enum TriggerError {
    /// The expression does not fit the trigger grammar.
    InvalidExpression,
}

fn parse_num(s: &[u8]) -> (r: Option<u64>)
    ensures
        r == spec_num(s@),
{
    if s.len() == 1 && 48 <= s[0] && s[0] <= 57 {
        Some((s[0] - 48) as u64)
    } else if s.len() == 2 && 48 <= s[0] && s[0] <= 57 && 48 <= s[1] && s[1] <= 57 {
        Some(((s[0] - 48) as u64) * 10 + ((s[1] - 48) as u64))
    } else {
        None
    }
}

pub fn find_byte_x(s: &[u8], c: u8) -> (r: Option<usize>)
    ensures
        match r {
            Some(i) => find_byte(s@, c) == i,
            None => find_byte(s@, c) == -1,
        },
{
    let mut i: usize = 0;
    while i < s.len()
        invariant
            i <= s@.len(),
            forall|k: int| 0 <= k < i ==> s@[k] != c,
        decreases s@.len() - i,
    {
        if s[i] == c {
            proof {
                lemma_find_byte_at(s@, c, i as int);
            }
            return Some(i);
        }
        i = i + 1;
    }
    proof {
        lemma_find_byte_none(s@, c);
    }
    None
}

fn parse_atom(s: &[u8], lo: u64, hi: u64) -> (r: Option<Part>)
    ensures
        r == spec_atom(s@, lo, hi),
{
    proof {
        lemma_find_byte(s@, 45);
        lemma_find_byte(s@, 47);
    }
    if s.len() == 1 && s[0] == 42 {
        Some(Part::All)
    } else if s.len() >= 2 && s[0] == 42 && s[1] == 47 {
        match parse_num(&s[2..s.len()]) {
            Some(k) => if k >= 1 {
                Some(Part::Step(lo, hi, k))
            } else {
                None
            },
            None => None,
        }
    } else {
        let dash = find_byte_x(s, 45);
        let slash = find_byte_x(s, 47);
        match (dash, slash) {
            (None, None) => match parse_num(s) {
                Some(v) => if lo <= v && v <= hi {
                    Some(Part::Lit(v))
                } else {
                    None
                },
                None => None,
            },
            (Some(d), None) => match (parse_num(&s[0..d]), parse_num(&s[d + 1..s.len()])) {
                (Some(a), Some(b)) => if lo <= a && a <= b && b <= hi {
                    Some(Part::Range(a, b))
                } else {
                    None
                },
                _ => None,
            },
            (Some(d), Some(sl)) => {
                if d < sl {
                    match (
                        parse_num(&s[0..d]),
                        parse_num(&s[d + 1..sl]),
                        parse_num(&s[sl + 1..s.len()]),
                    ) {
                        (Some(a), Some(b), Some(k)) => if lo <= a && a <= b && b <= hi && k >= 1 {
                            Some(Part::Step(a, b, k))
                        } else {
                            None
                        },
                        _ => None,
                    }
                } else {
                    None
                }
            },
            (None, Some(_)) => None,
        }
    }
}

fn parse_field(s: &[u8], lo: u64, hi: u64) -> (r: Option<Vec<Part>>)
    ensures
        match r {
            Some(v) => spec_field(s@, lo, hi) == Some(v@),
            None => spec_field(s@, lo, hi) is None,
        },
    decreases s@.len(),
{
    proof {
        lemma_find_byte(s@, 44);
    }
    match find_byte_x(s, 44) {
        None => match parse_atom(s, lo, hi) {
            Some(pt) => {
                let v = vec![pt];
                assert(v@ =~= seq![pt]);
                Some(v)
            },
            None => None,
        },
        Some(p) => {
            let n = s.len();
            assert(p < n);
            match parse_atom(&s[0..p], lo, hi) {
            Some(pt) => match parse_field(&s[p + 1..n], lo, hi) {
                Some(mut rest) => {
                    let ghost rest_view = rest@;
                    let mut v = vec![pt];
                    v.append(&mut rest);
                    assert(v@ =~= seq![pt] + rest_view);
                    Some(v)
                },
                None => None,
            },
            None => None,
            }
        },
    }
}

/// Parse a trigger expression.
///
/// Succeeds exactly on the expressions the grammar accepts, and then
/// returns the trigger the expression denotes, well-formed.
pub fn parse_trigger(s: &[u8]) -> (r: Result<Trigger, TriggerError>)
    ensures
        match r {
            Ok(t) => spec_parse(s@) == Some(trigger_form(&t)) && crate::trigger::trigger_wf(&t),
            Err(_) => spec_parse(s@) is None,
        },
{
    let fields = split_bytes(s, 32);
    if fields.len() != 6 {
        return Err(TriggerError::InvalidExpression);
    }
    assert(forall|i: int|
        0 <= i < 6 ==> fields@.map_values(|x: &[u8]| x@)[i] == #[trigger] fields@[i]@);
    let secs = parse_field(fields[0], 0, 59);
    let mins = parse_field(fields[1], 0, 59);
    let hours = parse_field(fields[2], 0, 23);
    let doms = parse_field(fields[3], 1, 31);
    let months = parse_field(fields[4], 1, 12);
    let dows = parse_field(fields[5], 0, 6);
    match (secs, mins, hours, doms, months, dows) {
        (Some(a), Some(b), Some(c), Some(d), Some(e), Some(f)) => {
            let t = Trigger { secs: a, mins: b, hours: c, doms: d, months: e, dows: f };
            proof {
                lemma_spec_field_wf(fields@[0]@, 0, 59);
                lemma_spec_field_wf(fields@[1]@, 0, 59);
                lemma_spec_field_wf(fields@[2]@, 0, 23);
                lemma_spec_field_wf(fields@[3]@, 1, 31);
                lemma_spec_field_wf(fields@[4]@, 1, 12);
                lemma_spec_field_wf(fields@[5]@, 0, 6);
            }
            Ok(t)
        },
        _ => Err(TriggerError::InvalidExpression),
    }
}

pub fn split_bytes<'a>(s: &'a [u8], c: u8) -> (r: Vec<&'a [u8]>)
    ensures
        r@.map_values(|x: &[u8]| x@) == spec_split(s@, c),
        r@.len() >= 1,
    decreases s@.len(),
{
    proof {
        lemma_find_byte(s@, c);
    }
    match find_byte_x(s, c) {
        None => {
            let v: Vec<&'a [u8]> = vec![s];
            assert(v@.map_values(|x: &[u8]| x@) =~= seq![s@]);
            v
        },
        Some(p) => {
            let n = s.len();
            assert(p < n);
            let head = &s[0..p];
            let mut rest = split_bytes(&s[p + 1..n], c);
            let ghost rest_view = rest@;
            let mut v: Vec<&'a [u8]> = vec![head];
            v.append(&mut rest);
            assert(v@.map_values(|x: &[u8]| x@) =~= seq![s@.subrange(0, p as int)]
                + rest_view.map_values(|x: &[u8]| x@));
            v
        },
    }
}

} // verus!

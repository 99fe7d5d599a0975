//! The data-access handle and the record-store query semantics.
//!
//! The record store itself is an external collaborator; the library
//! holds the handle's once-captured construction outcome and the exact
//! meaning of a query-by-id over a sequence of records. A consumer that
//! owns a live store makes the call itself and feeds the answer back to
//! the router's `finish_user`.

use vstd::prelude::*;

verus! {

/// A stored record: its id and its payload, both plain bytes. The
/// payload passes through the library untouched.
#[derive(Clone, PartialEq, Eq, Debug)]
pub struct Record {
    pub id: Vec<u8>,
    pub body: Vec<u8>,
}

/// The shared handle to the record store.
///
/// Construction is attempted exactly once, at process start; the
/// outcome, success or failure, is captured here and every consumer
/// observes the same value for the life of the process. A failed
/// handle makes every query answer `Unavailable` instead of retrying
/// the connection.
#[derive(Clone, Copy, PartialEq, Eq, Structural, Debug)]
pub struct DataHandle {
    /// Whether the one construction attempt succeeded.
    pub available: bool,
}

impl DataHandle {
    /// Capture the construction outcome.
    pub fn new(available: bool) -> (r: DataHandle)
        ensures
            r.available == available,
    {
        DataHandle { available }
    }
}

/// Byte-sequence equality.
pub fn bytes_eq(a: &[u8], b: &[u8]) -> (r: bool)
    ensures
        r == (a@ == b@),
{
    if a.len() != b.len() {
        return false;
    }
    let mut i: usize = 0;
    while i < a.len()
        invariant
            a@.len() == b@.len(),
            i <= a@.len(),
            forall|k: int| 0 <= k < i ==> a@[k] == b@[k],
        decreases a@.len() - i,
    {
        if a[i] != b[i] {
            return false;
        }
        i = i + 1;
    }
    proof {
        assert(a@ =~= b@);
    }
    true
}

/// The first record with the given id, by index: exactly the store's
/// find-first-by-id semantics over an in-memory record sequence.
pub fn find_first_by_id(records: &Vec<Record>, id: &[u8]) -> (r: Option<usize>)
    ensures
        match r {
            Some(i) => 0 <= i < records@.len() && records@[i as int].id@ == id@ && forall|k: int|
                0 <= k < i ==> (#[trigger] records@[k]).id@ != id@,
            None => forall|k: int| 0 <= k < records@.len() ==> (#[trigger] records@[k]).id@ != id@,
        },
{
    let mut i: usize = 0;
    while i < records.len()
        invariant
            i <= records@.len(),
            forall|k: int| 0 <= k < i ==> (#[trigger] records@[k]).id@ != id@,
        decreases records@.len() - i,
    {
        if bytes_eq(records[i].id.as_slice(), id) {
            return Some(i);
        }
        i = i + 1;
    }
    None
}

} // verus!

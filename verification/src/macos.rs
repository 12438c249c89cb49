//! What is particular to macOS.

use crate::types::{ProcessId, ProcessIds};
use vstd::prelude::*;

verus! {

/// The largest process id that macOS hands out.
pub const AVAILABLE_MAX_PROCESS_ID: u32 = 99999 - 1;

/// The process ids among the numbers that the system listed: those that are
/// not negative, in the order of the listing.
pub open spec fn listed_process_ids(listed: Seq<i32>) -> Seq<ProcessId> {
    listed.filter(|number: i32| number >= 0).map_values(|number: i32| number as ProcessId)
}

/// Picks the process ids out of the numbers that the system listed. A
/// negative number names no process and is left out.
pub fn candidate_process_ids(listed: &Vec<i32>) -> (process_ids: ProcessIds)
    ensures
        process_ids@ == listed_process_ids(listed@),
{
    let mut process_ids: ProcessIds = Vec::new();
    let mut at: usize = 0;
    assert(listed@.take(0) =~= Seq::empty());
    assert(process_ids@ =~= listed_process_ids(listed@.take(0)));
    while at < listed.len()
        invariant
            at <= listed.len(),
            process_ids@ == listed_process_ids(listed@.take(at as int)),
        decreases listed.len() - at,
    {
        let number = listed[at];
        proof {
            let kept = |number: i32| number >= 0;
            let before = listed@.take(at as int);
            assert(listed@.take(at + 1) =~= before.push(number));
            before.lemma_filter_push(number, kept);
            assert(listed_process_ids(before.push(number)) =~= if number >= 0 {
                listed_process_ids(before).push(number as ProcessId)
            } else {
                listed_process_ids(before)
            });
        }
        if number >= 0 {
            process_ids.push(number as u32);
        }
        at += 1;
    }
    assert(listed@.take(at as int) =~= listed@);
    process_ids
}

} // verus!

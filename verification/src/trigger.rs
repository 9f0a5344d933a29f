use vstd::prelude::*;

use crate::ids::EntryId;
use crate::store::{lemma_entries_after_origin, wf_log, Entry, Log};

verus! {

/// One pass of the minute-aligned trigger queue: only at second 0 of
/// the wall clock does anything happen, and then the whole log is read
/// in one batch — every entry present at that tick, including entries
/// added seconds earlier. The log itself is left untouched: entries are
/// neither deleted nor re-appended, so the same batch fires again a
/// minute later until something else removes the entries. That re-fire
/// is the queue's documented behaviour, not an accident of this pass.
pub fn trigger_poll(log: &Log, second: u32) -> (r: Option<Vec<Entry>>)
    requires
        wf_log(log@),
    ensures
        second != 0 ==> r is None,
        second == 0 ==> r is Some && r->Some_0.deep_view() == log@.entries,
{
    if second == 0 {
        let origin = EntryId::origin();
        let all = log.read_from(&origin);
        proof {
            lemma_entries_after_origin(log@.entries);
        }
        Some(all)
    } else {
        None
    }
}

} // verus!

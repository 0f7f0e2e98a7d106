//! The decisions of one scan pass: which of the running processes to stop.

use vstd::prelude::*;

use crate::rules::{allowed, is_allowed, PeriodView, RuleStore};
use crate::time::Moment;

verus! {

/// A running process as the operating system lists it: its id, and its name
/// when the name could be read.
#[derive(Debug)]
pub struct ProcessEntry {
    pub pid: i32,
    pub name: Option<String>,
}

/// The ids of the processes to stop, in the order listed: those whose name
/// was read and is not allowed at `m`. A process whose name could not be
/// read is skipped.
pub open spec fn to_terminate(
    store: Map<Seq<char>, Seq<PeriodView>>,
    processes: Seq<ProcessEntry>,
    m: Moment,
) -> Seq<i32>
    decreases processes.len(),
{
    if processes.len() == 0 {
        Seq::empty()
    } else {
        let rest = to_terminate(store, processes.drop_last(), m);
        match processes.last().name {
            Some(n) => if allowed(store, n@, m) {
                rest
            } else {
                rest.push(processes.last().pid)
            },
            None => rest,
        }
    }
}

/// Judges every listed process against the rules at the one moment `now`
/// and returns the ids of those to stop.
pub fn process_rules(rules: &RuleStore, processes: &Vec<ProcessEntry>, now: &Moment) -> (r: Vec<i32>)
    ensures
        r@ == to_terminate(rules@, processes@, *now),
{
    let mut out: Vec<i32> = Vec::new();
    let mut k: usize = 0;
    while k < processes.len()
        invariant
            k <= processes@.len(),
            out@ == to_terminate(rules@, processes@.take(k as int), *now),
        decreases processes@.len() - k,
    {
        assert(processes@.take(k + 1).drop_last() =~= processes@.take(k as int));
        let entry = &processes[k];
        match &entry.name {
            Some(name) => {
                if !is_allowed(rules, name.as_str(), now) {
                    out.push(entry.pid);
                }
            },
            None => {},
        }
        k = k + 1;
    }
    assert(processes@.take(k as int) =~= processes@);
    out
}

}

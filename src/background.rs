//! The steps of the two polling loops: duration accrual and liveness.
use vstd::prelude::*;

use chrono::NaiveDateTime;

use crate::process::{Process, Processes};
use crate::text::texts;

verus! {

/// The process after `seconds` more of running: only a running, tracked
/// process gains them, and its duration stops at `u64::MAX`.
pub open spec fn accrued(p: Process, seconds: u64) -> Process {
    if p.is_running && p.is_tracked {
        Process {
            duration: if p.duration + seconds > u64::MAX {
                u64::MAX
            } else {
                (p.duration + seconds) as u64
            },
            ..p
        }
    } else {
        p
    }
}

/// Adds the elapsed `seconds` to every running, tracked process.
pub fn accrue_durations(processes: &mut Processes, seconds: u64)
    ensures
        final(processes)@.len() == old(processes)@.len(),
        forall|i: int|
            0 <= i < old(processes)@.len() ==> #[trigger] final(processes)@[i] == accrued(
                old(processes)@[i],
                seconds,
            ),
{
    let n = processes.0.len();
    let mut i: usize = 0;
    while i < n
        invariant
            n == old(processes)@.len(),
            processes@.len() == n,
            i <= n,
            forall|j: int| 0 <= j < i ==> #[trigger] processes@[j] == accrued(old(processes)@[j], seconds),
            forall|j: int| i <= j < n ==> #[trigger] processes@[j] == old(processes)@[j],
        decreases n - i,
    {
        if processes.0[i].is_running && processes.0[i].is_tracked {
            processes.0[i].duration = processes.0[i].duration.saturating_add(seconds);
        }
        i = i + 1;
    }
}

/// The process after a scan of the OS found the processes named `running`:
/// a tracked process among them is running and was seen `now`; any other is
/// not running.
pub open spec fn scanned(p: Process, running: Seq<Seq<char>>, now: NaiveDateTime) -> Process {
    if p.is_tracked && running.contains(p.name@) {
        Process { is_running: true, last_seen_date: now, ..p }
    } else {
        Process { is_running: false, ..p }
    }
}

/// Whether `name` is one of `names`.
fn contains_name(names: &Vec<String>, name: &String) -> (r: bool)
    ensures
        r == texts(names@).contains(name@),
{
    let mut i: usize = 0;
    while i < names.len()
        invariant
            i <= names.len(),
            forall|j: int| 0 <= j < i ==> (#[trigger] names@[j])@ != name@,
        decreases names.len() - i,
    {
        if names[i] == *name {
            assert(texts(names@)[i as int] == name@);
            return true;
        }
        i = i + 1;
    }
    assert(!texts(names@).contains(name@)) by {
        if texts(names@).contains(name@) {
            let j = choose|j: int| 0 <= j < texts(names@).len() && texts(names@)[j] == name@;
            assert((names@[j])@ == name@);
        }
    }
    false
}

/// Applies one scan of the OS's running processes to the registry.
pub fn apply_running_snapshot(processes: &mut Processes, running: &Vec<String>, now: NaiveDateTime)
    ensures
        final(processes)@.len() == old(processes)@.len(),
        forall|i: int|
            0 <= i < old(processes)@.len() ==> #[trigger] final(processes)@[i] == scanned(
                old(processes)@[i],
                texts(running@),
                now,
            ),
{
    let n = processes.0.len();
    let mut i: usize = 0;
    while i < n
        invariant
            n == old(processes)@.len(),
            processes@.len() == n,
            i <= n,
            forall|j: int|
                0 <= j < i ==> #[trigger] processes@[j] == scanned(
                    old(processes)@[j],
                    texts(running@),
                    now,
                ),
            forall|j: int| i <= j < n ==> #[trigger] processes@[j] == old(processes)@[j],
        decreases n - i,
    {
        if processes.0[i].is_tracked && contains_name(running, &processes.0[i].name) {
            processes.0[i].is_running = true;
            processes.0[i].last_seen_date = now;
        } else {
            processes.0[i].is_running = false;
        }
        i = i + 1;
    }
}

} // verus!

//! The older on-disk format, a map from process name to its record.
use vstd::prelude::*;

use crate::datetime::{date_accepted, date_error, date_of, parse_datetime};
use crate::process::{Process, Processes};

verus! {

/// One record of the older format.
#[derive(Debug)]
pub struct LegacyProcess {
    pub date_added: String,
    pub duration: u64,
    pub icon_path: String,
    pub last_seen: String,
    pub notes: String,
    pub tracking: bool,
}

/// The records of an older file, each with the name it was keyed by, in the
/// order in which they were read. The file is a map, so the names are
/// distinct; nothing here relies on it, as the import reports a repeated name
/// as already tracked.
#[derive(Debug)]
pub struct LegacyProcesses(pub Vec<(String, LegacyProcess)>);

/// Whether both timestamps of a record can be read.
pub open spec fn legacy_dates_ok(l: LegacyProcess) -> bool {
    &&& date_accepted(l.last_seen@)
    &&& date_accepted(l.date_added@)
}

/// The message for a record whose timestamps cannot be read.
pub open spec fn legacy_error(l: LegacyProcess) -> Seq<char> {
    if !date_accepted(l.last_seen@) {
        date_error(l.last_seen@)
    } else {
        date_error(l.date_added@)
    }
}

/// Whether `p` is the process that record `l` named `name` becomes.
/// Whatever the record held, the process is not running.
pub open spec fn is_legacy_process(p: Process, name: String, l: LegacyProcess) -> bool {
    &&& !p.is_running
    &&& p.is_tracked == l.tracking
    &&& p.icon == l.icon_path
    &&& p.name == name
    &&& p.duration == l.duration
    &&& p.notes == l.notes
    &&& p.last_seen_date == date_of(l.last_seen@)
    &&& p.added_date == date_of(l.date_added@)
}

impl LegacyProcess {
    /// The process this record stands for, under `name`.
    pub fn into_process(self, name: String) -> (r: Result<Process, String>)
        ensures
            r is Ok <==> legacy_dates_ok(self),
            r matches Ok(p) ==> is_legacy_process(p, name, self),
            r matches Err(e) ==> e@ == legacy_error(self),
    {
        let last_seen_date = parse_datetime(self.last_seen.as_str())?;
        let added_date = parse_datetime(self.date_added.as_str())?;
        Ok(
            Process {
                is_running: false,
                is_tracked: self.tracking,
                icon: self.icon_path,
                name,
                duration: self.duration,
                notes: self.notes,
                last_seen_date,
                added_date,
            },
        )
    }
}

/// Whether every record's timestamps can be read.
pub open spec fn all_legacy_dates_ok(s: Seq<(String, LegacyProcess)>) -> bool {
    forall|k: int| 0 <= k < s.len() ==> legacy_dates_ok((#[trigger] s[k]).1)
}

/// The first record whose timestamps cannot be read.
pub open spec fn first_bad_record(s: Seq<(String, LegacyProcess)>, k: int) -> bool {
    &&& 0 <= k < s.len()
    &&& !legacy_dates_ok(s[k].1)
    &&& forall|j: int| 0 <= j < k ==> legacy_dates_ok((#[trigger] s[j]).1)
}

impl LegacyProcesses {
    /// The processes these records stand for, in the same order; refused
    /// when a record's timestamps cannot be read.
    pub fn into_processes(self) -> (r: Result<Processes, String>)
        ensures
            r is Ok <==> all_legacy_dates_ok(self.0@),
            r matches Ok(ps) ==> ps@.len() == self.0@.len() && forall|k: int|
                0 <= k < ps@.len() ==> is_legacy_process(
                    #[trigger] ps@[k],
                    self.0@[k].0,
                    self.0@[k].1,
                ),
            r matches Err(e) ==> exists|k: int|
                first_bad_record(self.0@, k) && e@ == legacy_error(self.0@[k].1),
    {
        let ghost records = self.0@;
        let mut entries = self.0;
        let mut rest: Vec<(String, LegacyProcess)> = Vec::new();
        // Records are taken from the back, so `rest` holds them reversed.
        while entries.len() > 0
            invariant
                entries@ + rest@.reverse() == records,
                records == self.0@,
            decreases entries.len(),
        {
            let e = entries.pop().unwrap();
            proof {
                assert(entries@ + rest@.push(e).reverse() =~= records) by {
                    assert(rest@.push(e).reverse() =~= seq![e] + rest@.reverse());
                }
            }
            rest.push(e);
        }
        assert(rest@.reverse() =~= records);
        let mut out: Vec<Process> = Vec::new();
        let n = rest.len();
        while rest.len() > 0
            invariant
                n == records.len(),
                records == self.0@,
                rest@.len() + out@.len() == n,
                forall|k: int| 0 <= k < rest@.len() ==> #[trigger] rest@[k] == records[n - 1 - k],
                forall|k: int| 0 <= k < out@.len() ==> is_legacy_process(
                    #[trigger] out@[k],
                    records[k].0,
                    records[k].1,
                ),
                forall|k: int| 0 <= k < out@.len() ==> legacy_dates_ok((#[trigger] records[k]).1),
            decreases rest.len(),
        {
            let (name, record) = rest.pop().unwrap();
            let k = out.len();
            assert(records[k as int] == (name, record));
            match record.into_process(name) {
                Ok(p) => {
                    out.push(p);
                },
                Err(e) => {
                    assert(first_bad_record(records, k as int));
                    assert(!legacy_dates_ok(records[k as int].1));
                    return Err(e);
                },
            }
        }
        Ok(Processes(out))
    }
}

} // verus!

//! The registry of tracked processes.
use vstd::prelude::*;
use vstd::string::*;

use chrono::NaiveDateTime;

verus! {

/// One tracked OS process.
#[derive(Debug)]
pub struct Process {
    pub is_running: bool,
    pub is_tracked: bool,
    pub icon: String,
    pub name: String,
    pub duration: u64,
    pub notes: String,
    pub last_seen_date: NaiveDateTime,
    pub added_date: NaiveDateTime,
}

impl Process {
    /// A copy of this process, field for field.
    pub fn cloned(&self) -> (r: Process)
        ensures
            r == *self,
    {
        Process {
            is_running: self.is_running,
            is_tracked: self.is_tracked,
            icon: self.icon.clone(),
            name: self.name.clone(),
            duration: self.duration,
            notes: self.notes.clone(),
            last_seen_date: self.last_seen_date,
            added_date: self.added_date,
        }
    }
}

/// The ordered registry; a process's position is its public ID.
#[derive(Debug)]
pub struct Processes(pub Vec<Process>);

impl View for Processes {
    type V = Seq<Process>;

    open spec fn view(&self) -> Seq<Process> {
        self.0@
    }
}

/// Whether some process in `s` has the name `name`.
pub open spec fn has_name(s: Seq<Process>, name: Seq<char>) -> bool {
    exists|i: int| 0 <= i < s.len() && (#[trigger] s[i]).name@ == name
}

/// Whether no two processes in `s` share a name.
pub open spec fn names_unique(s: Seq<Process>) -> bool {
    forall|i: int, j: int| 0 <= i < j < s.len() ==> (#[trigger] s[i]).name@ != (#[trigger] s[j]).name@
}

impl Processes {
    /// An empty registry.
    pub fn new() -> (r: Processes)
        ensures
            r@ == Seq::<Process>::empty(),
    {
        Processes(Vec::new())
    }

    /// Whether a process named `name` is in the registry.
    pub fn contains_process(&self, name: &str) -> (r: bool)
        ensures
            r == has_name(self@, name@),
    {
        let target = String::from_str(name);
        let mut i: usize = 0;
        while i < self.0.len()
            invariant
                i <= self.0.len(),
                target@ == name@,
                forall|j: int| 0 <= j < i ==> (#[trigger] self@[j]).name@ != name@,
            decreases self.0.len() - i,
        {
            if self.0[i].name == target {
                assert(self@[i as int].name@ == name@);
                return true;
            }
            i = i + 1;
        }
        false
    }

    /// Whether two processes share a name, which a registry read from disk
    /// must not hold.
    pub fn has_duplicates(&self) -> (r: bool)
        ensures
            r == !names_unique(self@),
    {
        let n = self.0.len();
        let mut i: usize = 0;
        while i < n
            invariant
                n == self@.len(),
                i <= n,
                forall|a: int, b: int|
                    0 <= a < i && a < b < n ==> (#[trigger] self@[a]).name@ != (#[trigger] self@[b]).name@,
            decreases n - i,
        {
            let mut j: usize = i + 1;
            while j < n
                invariant
                    n == self@.len(),
                    i < n,
                    i < j <= n,
                    forall|a: int, b: int|
                        0 <= a < i && a < b < n ==> (#[trigger] self@[a]).name@ != (#[trigger] self@[b]).name@,
                    forall|b: int| i < b < j ==> self@[i as int].name@ != (#[trigger] self@[b]).name@,
                decreases n - j,
            {
                if self.0[i].name == self.0[j].name {
                    return true;
                }
                j = j + 1;
            }
            i = i + 1;
        }
        false
    }
}

} // verus!
